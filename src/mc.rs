//! The macrocell of a family of CPLDs: its register settings as patterns,
//! and where each one is stored in each of the family's bitstream layouts.

use vstd::prelude::*;
use vstd::string::*;
use crate::bitpattern::{
    describes, lemma_bool_unshadowed, lemma_describes_shadowed, shadowed, BitPattern,
};
use crate::error::CodecError;
use crate::fragment::{
    fixed_of, is_local, local_of, BitPlacement, BitPos, FieldKind, FieldLayout, FragmentLayout,
};
use crate::grid::{cell_count, Grid};
use crate::pattern::{encode_bits, pattern_matches, PatBit, PatternSchema, PatternVariant};

verus! {

/// Clock source for the register in a macrocell.
#[derive(Clone, Copy, Debug, PartialEq, Eq, Hash, Structural)]
pub enum XC2MCRegClkSrc {
    GCK0,
    GCK1,
    GCK2,
    PTC,
    CTC,
}

/// Reset source for the register in a macrocell.
#[derive(Clone, Copy, Debug, PartialEq, Eq, Hash, Structural)]
pub enum XC2MCRegResetSrc {
    Disabled,
    PTA,
    GSR,
    CTR,
}

/// Set source for the register in a macrocell.
#[derive(Clone, Copy, Debug, PartialEq, Eq, Hash, Structural)]
pub enum XC2MCRegSetSrc {
    Disabled,
    PTA,
    GSR,
    CTS,
}

/// Mode of the register in a macrocell.
#[derive(Clone, Copy, Debug, PartialEq, Eq, Hash, Structural)]
pub enum XC2MCRegMode {
    /// D-type flip-flop
    DFF,
    /// Transparent latch
    LATCH,
    /// Toggle flip-flop
    TFF,
    /// D-type flip-flop with clock-enable pin
    DFFCE,
}

/// Mux selection for the ZIA input from this macrocell. The ZIA input can be chosen to come
/// from either the XOR gate or from the output of the register.
#[derive(Clone, Copy, Debug, PartialEq, Eq, Hash, Structural)]
pub enum XC2MCFeedbackMode {
    Disabled,
    COMB,
    REG,
}

/// Mux selection for the "not from OR gate" input to the XOR gate. The XOR gate in a
/// macrocell contains two inputs, the output of the corresponding OR term from the PLA and
/// a specific dedicated AND term from the PLA.
#[derive(Clone, Copy, Debug, PartialEq, Eq, Hash, Structural)]
pub enum XC2MCXorMode {
    /// A constant zero which results in this XOR outputting the value of the OR term
    ZERO,
    /// A constant one which results in this XOR outputting the complement of the OR term
    ONE,
    /// XOR the OR term with the special product term C
    PTC,
    /// XNOR the OR term with the special product term C
    PTCB,
}

impl BitPattern for XC2MCRegClkSrc {
    type EncodeExtraType = ();

    type DecodeExtraType = ();

    open spec fn bits_count() -> nat {
        3
    }

    open spec fn variant_count() -> nat {
        5
    }

    open spec fn variant_bits(v: int) -> Seq<PatBit> {
        if v == 0 {
            seq![PatBit::Any, PatBit::Zero, PatBit::Zero]
        } else if v == 1 {
            seq![PatBit::Any, PatBit::One, PatBit::Zero]
        } else if v == 2 {
            seq![PatBit::Any, PatBit::Zero, PatBit::One]
        } else if v == 3 {
            seq![PatBit::Zero, PatBit::One, PatBit::One]
        } else {
            seq![PatBit::One, PatBit::One, PatBit::One]
        }
    }

    open spec fn bit_name(p: int) -> Seq<char> {
        if p == 0 {
            seq!['0']
        } else if p == 1 {
            seq!['1']
        } else {
            seq!['2']
        }
    }

    open spec fn variant_name(v: int) -> Seq<char> {
        if v == 0 {
            "GCK0"@
        } else if v == 1 {
            "GCK1"@
        } else if v == 2 {
            "GCK2"@
        } else if v == 3 {
            "PTC"@
        } else {
            "CTC"@
        }
    }

    open spec fn variant_desc(v: int) -> Seq<char> {
        if v == 0 {
            ""@
        } else if v == 1 {
            ""@
        } else if v == 2 {
            ""@
        } else if v == 3 {
            ""@
        } else {
            ""@
        }
    }

    open spec fn variant_of(&self) -> int {
        match self {
            XC2MCRegClkSrc::GCK0 => 0,
            XC2MCRegClkSrc::GCK1 => 1,
            XC2MCRegClkSrc::GCK2 => 2,
            XC2MCRegClkSrc::PTC => 3,
            XC2MCRegClkSrc::CTC => 4,
        }
    }

    fn schema() -> (r: PatternSchema) {
        proof {
            reveal_strlit("0");
            reveal_strlit("1");
            reveal_strlit("2");
        }
        let mut names: Vec<String> = Vec::new();
        names.push(String::from_str("0"));
        names.push(String::from_str("1"));
        names.push(String::from_str("2"));
        let mut variants: Vec<PatternVariant> = Vec::new();
        variants.push(
            PatternVariant::new(
                "GCK0",
                "",
                vec![PatBit::Any, PatBit::Zero, PatBit::Zero],
            ),
        );
        variants.push(
            PatternVariant::new(
                "GCK1",
                "",
                vec![PatBit::Any, PatBit::One, PatBit::Zero],
            ),
        );
        variants.push(
            PatternVariant::new(
                "GCK2",
                "",
                vec![PatBit::Any, PatBit::Zero, PatBit::One],
            ),
        );
        variants.push(
            PatternVariant::new(
                "PTC",
                "",
                vec![PatBit::Zero, PatBit::One, PatBit::One],
            ),
        );
        variants.push(
            PatternVariant::new(
                "CTC",
                "",
                vec![PatBit::One, PatBit::One, PatBit::One],
            ),
        );
        let r = PatternSchema { bit_names: names, variants };
        assert(Self::bits_count() == 3);
        assert(Self::variant_count() == 5);
        assert(Self::bit_name(0) == seq!['0']);
        assert(Self::bit_name(1) == seq!['1']);
        assert(Self::bit_name(2) == seq!['2']);
        assert(r.bits_of(0) =~= Self::variant_bits(0));
        assert(Self::variant_name(0) == "GCK0"@);
        assert(Self::variant_desc(0) == ""@);
        assert(r.bits_of(1) =~= Self::variant_bits(1));
        assert(Self::variant_name(1) == "GCK1"@);
        assert(Self::variant_desc(1) == ""@);
        assert(r.bits_of(2) =~= Self::variant_bits(2));
        assert(Self::variant_name(2) == "GCK2"@);
        assert(Self::variant_desc(2) == ""@);
        assert(r.bits_of(3) =~= Self::variant_bits(3));
        assert(Self::variant_name(3) == "PTC"@);
        assert(Self::variant_desc(3) == ""@);
        assert(r.bits_of(4) =~= Self::variant_bits(4));
        assert(Self::variant_name(4) == "CTC"@);
        assert(Self::variant_desc(4) == ""@);
        assert(r.name_at(0) == seq!['0']);
        assert(r.name_at(1) == seq!['1']);
        assert(r.name_at(2) == seq!['2']);
        assert(r.lengths_agree());
        assert(r.name_at(0)[0] == '0');
        assert(r.name_at(1)[0] == '1');
        assert(r.name_at(2)[0] == '2');
        assert forall|x: int, y: int|
            0 <= x < 3 && 0 <= y < 3 && x != y implies #[trigger] r.name_at(x) != #[trigger] r.name_at(y) by {
            assert(x == 0 || x == 1 || x == 2);
            assert(y == 0 || y == 1 || y == 2);
            assert(r.name_at(x)[0] != r.name_at(y)[0]);
        }
        r
    }

    fn variant_index(&self) -> (r: usize) {
        assert(Self::variant_count() == 5);
        match self {
            XC2MCRegClkSrc::GCK0 => 0,
            XC2MCRegClkSrc::GCK1 => 1,
            XC2MCRegClkSrc::GCK2 => 2,
            XC2MCRegClkSrc::PTC => 3,
            XC2MCRegClkSrc::CTC => 4,
        }
    }

    fn from_variant_index(v: usize) -> (r: Self) {
        if v == 0 {
            XC2MCRegClkSrc::GCK0
        } else if v == 1 {
            XC2MCRegClkSrc::GCK1
        } else if v == 2 {
            XC2MCRegClkSrc::GCK2
        } else if v == 3 {
            XC2MCRegClkSrc::PTC
        } else {
            XC2MCRegClkSrc::CTC
        }
    }

    proof fn lemma_variant_of_injective(a: Self, b: Self) {
    }
}

impl BitPattern for XC2MCRegResetSrc {
    type EncodeExtraType = ();

    type DecodeExtraType = ();

    open spec fn bits_count() -> nat {
        2
    }

    open spec fn variant_count() -> nat {
        4
    }

    open spec fn variant_bits(v: int) -> Seq<PatBit> {
        if v == 0 {
            seq![PatBit::One, PatBit::One]
        } else if v == 1 {
            seq![PatBit::Zero, PatBit::Zero]
        } else if v == 2 {
            seq![PatBit::Zero, PatBit::One]
        } else {
            seq![PatBit::One, PatBit::Zero]
        }
    }

    open spec fn bit_name(p: int) -> Seq<char> {
        if p == 0 {
            seq!['0']
        } else {
            seq!['1']
        }
    }

    open spec fn variant_name(v: int) -> Seq<char> {
        if v == 0 {
            "Disabled"@
        } else if v == 1 {
            "PTA"@
        } else if v == 2 {
            "GSR"@
        } else {
            "CTR"@
        }
    }

    open spec fn variant_desc(v: int) -> Seq<char> {
        if v == 0 {
            ""@
        } else if v == 1 {
            ""@
        } else if v == 2 {
            ""@
        } else {
            ""@
        }
    }

    open spec fn variant_of(&self) -> int {
        match self {
            XC2MCRegResetSrc::Disabled => 0,
            XC2MCRegResetSrc::PTA => 1,
            XC2MCRegResetSrc::GSR => 2,
            XC2MCRegResetSrc::CTR => 3,
        }
    }

    fn schema() -> (r: PatternSchema) {
        proof {
            reveal_strlit("0");
            reveal_strlit("1");
        }
        let mut names: Vec<String> = Vec::new();
        names.push(String::from_str("0"));
        names.push(String::from_str("1"));
        let mut variants: Vec<PatternVariant> = Vec::new();
        variants.push(
            PatternVariant::new(
                "Disabled",
                "",
                vec![PatBit::One, PatBit::One],
            ),
        );
        variants.push(
            PatternVariant::new(
                "PTA",
                "",
                vec![PatBit::Zero, PatBit::Zero],
            ),
        );
        variants.push(
            PatternVariant::new(
                "GSR",
                "",
                vec![PatBit::Zero, PatBit::One],
            ),
        );
        variants.push(
            PatternVariant::new(
                "CTR",
                "",
                vec![PatBit::One, PatBit::Zero],
            ),
        );
        let r = PatternSchema { bit_names: names, variants };
        assert(Self::bits_count() == 2);
        assert(Self::variant_count() == 4);
        assert(Self::bit_name(0) == seq!['0']);
        assert(Self::bit_name(1) == seq!['1']);
        assert(r.bits_of(0) =~= Self::variant_bits(0));
        assert(Self::variant_name(0) == "Disabled"@);
        assert(Self::variant_desc(0) == ""@);
        assert(r.bits_of(1) =~= Self::variant_bits(1));
        assert(Self::variant_name(1) == "PTA"@);
        assert(Self::variant_desc(1) == ""@);
        assert(r.bits_of(2) =~= Self::variant_bits(2));
        assert(Self::variant_name(2) == "GSR"@);
        assert(Self::variant_desc(2) == ""@);
        assert(r.bits_of(3) =~= Self::variant_bits(3));
        assert(Self::variant_name(3) == "CTR"@);
        assert(Self::variant_desc(3) == ""@);
        assert(r.name_at(0) == seq!['0']);
        assert(r.name_at(1) == seq!['1']);
        assert(r.lengths_agree());
        assert(r.name_at(0)[0] == '0');
        assert(r.name_at(1)[0] == '1');
        assert forall|x: int, y: int|
            0 <= x < 2 && 0 <= y < 2 && x != y implies #[trigger] r.name_at(x) != #[trigger] r.name_at(y) by {
            assert(x == 0 || x == 1);
            assert(y == 0 || y == 1);
            assert(r.name_at(x)[0] != r.name_at(y)[0]);
        }
        r
    }

    fn variant_index(&self) -> (r: usize) {
        assert(Self::variant_count() == 4);
        match self {
            XC2MCRegResetSrc::Disabled => 0,
            XC2MCRegResetSrc::PTA => 1,
            XC2MCRegResetSrc::GSR => 2,
            XC2MCRegResetSrc::CTR => 3,
        }
    }

    fn from_variant_index(v: usize) -> (r: Self) {
        if v == 0 {
            XC2MCRegResetSrc::Disabled
        } else if v == 1 {
            XC2MCRegResetSrc::PTA
        } else if v == 2 {
            XC2MCRegResetSrc::GSR
        } else {
            XC2MCRegResetSrc::CTR
        }
    }

    proof fn lemma_variant_of_injective(a: Self, b: Self) {
    }
}

impl BitPattern for XC2MCRegSetSrc {
    type EncodeExtraType = ();

    type DecodeExtraType = ();

    open spec fn bits_count() -> nat {
        2
    }

    open spec fn variant_count() -> nat {
        4
    }

    open spec fn variant_bits(v: int) -> Seq<PatBit> {
        if v == 0 {
            seq![PatBit::One, PatBit::One]
        } else if v == 1 {
            seq![PatBit::Zero, PatBit::Zero]
        } else if v == 2 {
            seq![PatBit::Zero, PatBit::One]
        } else {
            seq![PatBit::One, PatBit::Zero]
        }
    }

    open spec fn bit_name(p: int) -> Seq<char> {
        if p == 0 {
            seq!['0']
        } else {
            seq!['1']
        }
    }

    open spec fn variant_name(v: int) -> Seq<char> {
        if v == 0 {
            "Disabled"@
        } else if v == 1 {
            "PTA"@
        } else if v == 2 {
            "GSR"@
        } else {
            "CTS"@
        }
    }

    open spec fn variant_desc(v: int) -> Seq<char> {
        if v == 0 {
            ""@
        } else if v == 1 {
            ""@
        } else if v == 2 {
            ""@
        } else {
            ""@
        }
    }

    open spec fn variant_of(&self) -> int {
        match self {
            XC2MCRegSetSrc::Disabled => 0,
            XC2MCRegSetSrc::PTA => 1,
            XC2MCRegSetSrc::GSR => 2,
            XC2MCRegSetSrc::CTS => 3,
        }
    }

    fn schema() -> (r: PatternSchema) {
        proof {
            reveal_strlit("0");
            reveal_strlit("1");
        }
        let mut names: Vec<String> = Vec::new();
        names.push(String::from_str("0"));
        names.push(String::from_str("1"));
        let mut variants: Vec<PatternVariant> = Vec::new();
        variants.push(
            PatternVariant::new(
                "Disabled",
                "",
                vec![PatBit::One, PatBit::One],
            ),
        );
        variants.push(
            PatternVariant::new(
                "PTA",
                "",
                vec![PatBit::Zero, PatBit::Zero],
            ),
        );
        variants.push(
            PatternVariant::new(
                "GSR",
                "",
                vec![PatBit::Zero, PatBit::One],
            ),
        );
        variants.push(
            PatternVariant::new(
                "CTS",
                "",
                vec![PatBit::One, PatBit::Zero],
            ),
        );
        let r = PatternSchema { bit_names: names, variants };
        assert(Self::bits_count() == 2);
        assert(Self::variant_count() == 4);
        assert(Self::bit_name(0) == seq!['0']);
        assert(Self::bit_name(1) == seq!['1']);
        assert(r.bits_of(0) =~= Self::variant_bits(0));
        assert(Self::variant_name(0) == "Disabled"@);
        assert(Self::variant_desc(0) == ""@);
        assert(r.bits_of(1) =~= Self::variant_bits(1));
        assert(Self::variant_name(1) == "PTA"@);
        assert(Self::variant_desc(1) == ""@);
        assert(r.bits_of(2) =~= Self::variant_bits(2));
        assert(Self::variant_name(2) == "GSR"@);
        assert(Self::variant_desc(2) == ""@);
        assert(r.bits_of(3) =~= Self::variant_bits(3));
        assert(Self::variant_name(3) == "CTS"@);
        assert(Self::variant_desc(3) == ""@);
        assert(r.name_at(0) == seq!['0']);
        assert(r.name_at(1) == seq!['1']);
        assert(r.lengths_agree());
        assert(r.name_at(0)[0] == '0');
        assert(r.name_at(1)[0] == '1');
        assert forall|x: int, y: int|
            0 <= x < 2 && 0 <= y < 2 && x != y implies #[trigger] r.name_at(x) != #[trigger] r.name_at(y) by {
            assert(x == 0 || x == 1);
            assert(y == 0 || y == 1);
            assert(r.name_at(x)[0] != r.name_at(y)[0]);
        }
        r
    }

    fn variant_index(&self) -> (r: usize) {
        assert(Self::variant_count() == 4);
        match self {
            XC2MCRegSetSrc::Disabled => 0,
            XC2MCRegSetSrc::PTA => 1,
            XC2MCRegSetSrc::GSR => 2,
            XC2MCRegSetSrc::CTS => 3,
        }
    }

    fn from_variant_index(v: usize) -> (r: Self) {
        if v == 0 {
            XC2MCRegSetSrc::Disabled
        } else if v == 1 {
            XC2MCRegSetSrc::PTA
        } else if v == 2 {
            XC2MCRegSetSrc::GSR
        } else {
            XC2MCRegSetSrc::CTS
        }
    }

    proof fn lemma_variant_of_injective(a: Self, b: Self) {
    }
}

impl BitPattern for XC2MCRegMode {
    type EncodeExtraType = ();

    type DecodeExtraType = ();

    open spec fn bits_count() -> nat {
        2
    }

    open spec fn variant_count() -> nat {
        4
    }

    open spec fn variant_bits(v: int) -> Seq<PatBit> {
        if v == 0 {
            seq![PatBit::Zero, PatBit::Zero]
        } else if v == 1 {
            seq![PatBit::Zero, PatBit::One]
        } else if v == 2 {
            seq![PatBit::One, PatBit::Zero]
        } else {
            seq![PatBit::One, PatBit::One]
        }
    }

    open spec fn bit_name(p: int) -> Seq<char> {
        if p == 0 {
            seq!['0']
        } else {
            seq!['1']
        }
    }

    open spec fn variant_name(v: int) -> Seq<char> {
        if v == 0 {
            "DFF"@
        } else if v == 1 {
            "LATCH"@
        } else if v == 2 {
            "TFF"@
        } else {
            "DFFCE"@
        }
    }

    open spec fn variant_desc(v: int) -> Seq<char> {
        if v == 0 {
            "D-type flip-flop"@
        } else if v == 1 {
            "Transparent latch"@
        } else if v == 2 {
            "Toggle flip-flop"@
        } else {
            "D-type flip-flop with clock-enable pin"@
        }
    }

    open spec fn variant_of(&self) -> int {
        match self {
            XC2MCRegMode::DFF => 0,
            XC2MCRegMode::LATCH => 1,
            XC2MCRegMode::TFF => 2,
            XC2MCRegMode::DFFCE => 3,
        }
    }

    fn schema() -> (r: PatternSchema) {
        proof {
            reveal_strlit("0");
            reveal_strlit("1");
        }
        let mut names: Vec<String> = Vec::new();
        names.push(String::from_str("0"));
        names.push(String::from_str("1"));
        let mut variants: Vec<PatternVariant> = Vec::new();
        variants.push(
            PatternVariant::new(
                "DFF",
                "D-type flip-flop",
                vec![PatBit::Zero, PatBit::Zero],
            ),
        );
        variants.push(
            PatternVariant::new(
                "LATCH",
                "Transparent latch",
                vec![PatBit::Zero, PatBit::One],
            ),
        );
        variants.push(
            PatternVariant::new(
                "TFF",
                "Toggle flip-flop",
                vec![PatBit::One, PatBit::Zero],
            ),
        );
        variants.push(
            PatternVariant::new(
                "DFFCE",
                "D-type flip-flop with clock-enable pin",
                vec![PatBit::One, PatBit::One],
            ),
        );
        let r = PatternSchema { bit_names: names, variants };
        assert(Self::bits_count() == 2);
        assert(Self::variant_count() == 4);
        assert(Self::bit_name(0) == seq!['0']);
        assert(Self::bit_name(1) == seq!['1']);
        assert(r.bits_of(0) =~= Self::variant_bits(0));
        assert(Self::variant_name(0) == "DFF"@);
        assert(Self::variant_desc(0) == "D-type flip-flop"@);
        assert(r.bits_of(1) =~= Self::variant_bits(1));
        assert(Self::variant_name(1) == "LATCH"@);
        assert(Self::variant_desc(1) == "Transparent latch"@);
        assert(r.bits_of(2) =~= Self::variant_bits(2));
        assert(Self::variant_name(2) == "TFF"@);
        assert(Self::variant_desc(2) == "Toggle flip-flop"@);
        assert(r.bits_of(3) =~= Self::variant_bits(3));
        assert(Self::variant_name(3) == "DFFCE"@);
        assert(Self::variant_desc(3) == "D-type flip-flop with clock-enable pin"@);
        assert(r.name_at(0) == seq!['0']);
        assert(r.name_at(1) == seq!['1']);
        assert(r.lengths_agree());
        assert(r.name_at(0)[0] == '0');
        assert(r.name_at(1)[0] == '1');
        assert forall|x: int, y: int|
            0 <= x < 2 && 0 <= y < 2 && x != y implies #[trigger] r.name_at(x) != #[trigger] r.name_at(y) by {
            assert(x == 0 || x == 1);
            assert(y == 0 || y == 1);
            assert(r.name_at(x)[0] != r.name_at(y)[0]);
        }
        r
    }

    fn variant_index(&self) -> (r: usize) {
        assert(Self::variant_count() == 4);
        match self {
            XC2MCRegMode::DFF => 0,
            XC2MCRegMode::LATCH => 1,
            XC2MCRegMode::TFF => 2,
            XC2MCRegMode::DFFCE => 3,
        }
    }

    fn from_variant_index(v: usize) -> (r: Self) {
        if v == 0 {
            XC2MCRegMode::DFF
        } else if v == 1 {
            XC2MCRegMode::LATCH
        } else if v == 2 {
            XC2MCRegMode::TFF
        } else {
            XC2MCRegMode::DFFCE
        }
    }

    proof fn lemma_variant_of_injective(a: Self, b: Self) {
    }
}

impl BitPattern for XC2MCFeedbackMode {
    type EncodeExtraType = ();

    type DecodeExtraType = ();

    open spec fn bits_count() -> nat {
        2
    }

    open spec fn variant_count() -> nat {
        3
    }

    open spec fn variant_bits(v: int) -> Seq<PatBit> {
        if v == 0 {
            seq![PatBit::Any, PatBit::One]
        } else if v == 1 {
            seq![PatBit::Zero, PatBit::Zero]
        } else {
            seq![PatBit::One, PatBit::Zero]
        }
    }

    open spec fn bit_name(p: int) -> Seq<char> {
        if p == 0 {
            seq!['0']
        } else {
            seq!['1']
        }
    }

    open spec fn variant_name(v: int) -> Seq<char> {
        if v == 0 {
            "Disabled"@
        } else if v == 1 {
            "COMB"@
        } else {
            "REG"@
        }
    }

    open spec fn variant_desc(v: int) -> Seq<char> {
        if v == 0 {
            ""@
        } else if v == 1 {
            ""@
        } else {
            ""@
        }
    }

    open spec fn variant_of(&self) -> int {
        match self {
            XC2MCFeedbackMode::Disabled => 0,
            XC2MCFeedbackMode::COMB => 1,
            XC2MCFeedbackMode::REG => 2,
        }
    }

    fn schema() -> (r: PatternSchema) {
        proof {
            reveal_strlit("0");
            reveal_strlit("1");
        }
        let mut names: Vec<String> = Vec::new();
        names.push(String::from_str("0"));
        names.push(String::from_str("1"));
        let mut variants: Vec<PatternVariant> = Vec::new();
        variants.push(
            PatternVariant::new(
                "Disabled",
                "",
                vec![PatBit::Any, PatBit::One],
            ),
        );
        variants.push(
            PatternVariant::new(
                "COMB",
                "",
                vec![PatBit::Zero, PatBit::Zero],
            ),
        );
        variants.push(
            PatternVariant::new(
                "REG",
                "",
                vec![PatBit::One, PatBit::Zero],
            ),
        );
        let r = PatternSchema { bit_names: names, variants };
        assert(Self::bits_count() == 2);
        assert(Self::variant_count() == 3);
        assert(Self::bit_name(0) == seq!['0']);
        assert(Self::bit_name(1) == seq!['1']);
        assert(r.bits_of(0) =~= Self::variant_bits(0));
        assert(Self::variant_name(0) == "Disabled"@);
        assert(Self::variant_desc(0) == ""@);
        assert(r.bits_of(1) =~= Self::variant_bits(1));
        assert(Self::variant_name(1) == "COMB"@);
        assert(Self::variant_desc(1) == ""@);
        assert(r.bits_of(2) =~= Self::variant_bits(2));
        assert(Self::variant_name(2) == "REG"@);
        assert(Self::variant_desc(2) == ""@);
        assert(r.name_at(0) == seq!['0']);
        assert(r.name_at(1) == seq!['1']);
        assert(r.lengths_agree());
        assert(r.name_at(0)[0] == '0');
        assert(r.name_at(1)[0] == '1');
        assert forall|x: int, y: int|
            0 <= x < 2 && 0 <= y < 2 && x != y implies #[trigger] r.name_at(x) != #[trigger] r.name_at(y) by {
            assert(x == 0 || x == 1);
            assert(y == 0 || y == 1);
            assert(r.name_at(x)[0] != r.name_at(y)[0]);
        }
        r
    }

    fn variant_index(&self) -> (r: usize) {
        assert(Self::variant_count() == 3);
        match self {
            XC2MCFeedbackMode::Disabled => 0,
            XC2MCFeedbackMode::COMB => 1,
            XC2MCFeedbackMode::REG => 2,
        }
    }

    fn from_variant_index(v: usize) -> (r: Self) {
        if v == 0 {
            XC2MCFeedbackMode::Disabled
        } else if v == 1 {
            XC2MCFeedbackMode::COMB
        } else {
            XC2MCFeedbackMode::REG
        }
    }

    proof fn lemma_variant_of_injective(a: Self, b: Self) {
    }
}

impl BitPattern for XC2MCXorMode {
    type EncodeExtraType = ();

    type DecodeExtraType = ();

    open spec fn bits_count() -> nat {
        2
    }

    open spec fn variant_count() -> nat {
        4
    }

    open spec fn variant_bits(v: int) -> Seq<PatBit> {
        if v == 0 {
            seq![PatBit::Zero, PatBit::Zero]
        } else if v == 1 {
            seq![PatBit::One, PatBit::One]
        } else if v == 2 {
            seq![PatBit::One, PatBit::Zero]
        } else {
            seq![PatBit::Zero, PatBit::One]
        }
    }

    open spec fn bit_name(p: int) -> Seq<char> {
        if p == 0 {
            seq!['0']
        } else {
            seq!['1']
        }
    }

    open spec fn variant_name(v: int) -> Seq<char> {
        if v == 0 {
            "ZERO"@
        } else if v == 1 {
            "ONE"@
        } else if v == 2 {
            "PTC"@
        } else {
            "PTCB"@
        }
    }

    open spec fn variant_desc(v: int) -> Seq<char> {
        if v == 0 {
            "A constant zero which results in this XOR outputting the value of the OR term"@
        } else if v == 1 {
            "A constant one which results in this XOR outputting the complement of the OR term"@
        } else if v == 2 {
            "XOR the OR term with the special product term C"@
        } else {
            "XNOR the OR term with the special product term C"@
        }
    }

    open spec fn variant_of(&self) -> int {
        match self {
            XC2MCXorMode::ZERO => 0,
            XC2MCXorMode::ONE => 1,
            XC2MCXorMode::PTC => 2,
            XC2MCXorMode::PTCB => 3,
        }
    }

    fn schema() -> (r: PatternSchema) {
        proof {
            reveal_strlit("0");
            reveal_strlit("1");
        }
        let mut names: Vec<String> = Vec::new();
        names.push(String::from_str("0"));
        names.push(String::from_str("1"));
        let mut variants: Vec<PatternVariant> = Vec::new();
        variants.push(
            PatternVariant::new(
                "ZERO",
                "A constant zero which results in this XOR outputting the value of the OR term",
                vec![PatBit::Zero, PatBit::Zero],
            ),
        );
        variants.push(
            PatternVariant::new(
                "ONE",
                "A constant one which results in this XOR outputting the complement of the OR term",
                vec![PatBit::One, PatBit::One],
            ),
        );
        variants.push(
            PatternVariant::new(
                "PTC",
                "XOR the OR term with the special product term C",
                vec![PatBit::One, PatBit::Zero],
            ),
        );
        variants.push(
            PatternVariant::new(
                "PTCB",
                "XNOR the OR term with the special product term C",
                vec![PatBit::Zero, PatBit::One],
            ),
        );
        let r = PatternSchema { bit_names: names, variants };
        assert(Self::bits_count() == 2);
        assert(Self::variant_count() == 4);
        assert(Self::bit_name(0) == seq!['0']);
        assert(Self::bit_name(1) == seq!['1']);
        assert(r.bits_of(0) =~= Self::variant_bits(0));
        assert(Self::variant_name(0) == "ZERO"@);
        assert(Self::variant_desc(0) == "A constant zero which results in this XOR outputting the value of the OR term"@);
        assert(r.bits_of(1) =~= Self::variant_bits(1));
        assert(Self::variant_name(1) == "ONE"@);
        assert(Self::variant_desc(1) == "A constant one which results in this XOR outputting the complement of the OR term"@);
        assert(r.bits_of(2) =~= Self::variant_bits(2));
        assert(Self::variant_name(2) == "PTC"@);
        assert(Self::variant_desc(2) == "XOR the OR term with the special product term C"@);
        assert(r.bits_of(3) =~= Self::variant_bits(3));
        assert(Self::variant_name(3) == "PTCB"@);
        assert(Self::variant_desc(3) == "XNOR the OR term with the special product term C"@);
        assert(r.name_at(0) == seq!['0']);
        assert(r.name_at(1) == seq!['1']);
        assert(r.lengths_agree());
        assert(r.name_at(0)[0] == '0');
        assert(r.name_at(1)[0] == '1');
        assert forall|x: int, y: int|
            0 <= x < 2 && 0 <= y < 2 && x != y implies #[trigger] r.name_at(x) != #[trigger] r.name_at(y) by {
            assert(x == 0 || x == 1);
            assert(y == 0 || y == 1);
            assert(r.name_at(x)[0] != r.name_at(y)[0]);
        }
        r
    }

    fn variant_index(&self) -> (r: usize) {
        assert(Self::variant_count() == 4);
        match self {
            XC2MCXorMode::ZERO => 0,
            XC2MCXorMode::ONE => 1,
            XC2MCXorMode::PTC => 2,
            XC2MCXorMode::PTCB => 3,
        }
    }

    fn from_variant_index(v: usize) -> (r: Self) {
        if v == 0 {
            XC2MCXorMode::ZERO
        } else if v == 1 {
            XC2MCXorMode::ONE
        } else if v == 2 {
            XC2MCXorMode::PTC
        } else {
            XC2MCXorMode::PTCB
        }
    }

    proof fn lemma_variant_of_injective(a: Self, b: Self) {
    }
}

/// No variant of `XC2MCRegClkSrc` is shadowed by an earlier one, so every
/// variant survives an encode and decode.
pub proof fn lemma_clk_src_unshadowed()
    ensures
        forall|v: int| 0 <= v < 5 ==> !#[trigger] shadowed::<XC2MCRegClkSrc>(v),
{
    assert(!pattern_matches(
        <XC2MCRegClkSrc as BitPattern>::variant_bits(0),
        encode_bits(<XC2MCRegClkSrc as BitPattern>::variant_bits(1)),
    )) by {
        assert(<XC2MCRegClkSrc as BitPattern>::variant_bits(0)[1] == PatBit::Zero);
        assert(<XC2MCRegClkSrc as BitPattern>::variant_bits(1)[1] == PatBit::One);
    }
    assert(!pattern_matches(
        <XC2MCRegClkSrc as BitPattern>::variant_bits(0),
        encode_bits(<XC2MCRegClkSrc as BitPattern>::variant_bits(2)),
    )) by {
        assert(<XC2MCRegClkSrc as BitPattern>::variant_bits(0)[2] == PatBit::Zero);
        assert(<XC2MCRegClkSrc as BitPattern>::variant_bits(2)[2] == PatBit::One);
    }
    assert(!pattern_matches(
        <XC2MCRegClkSrc as BitPattern>::variant_bits(1),
        encode_bits(<XC2MCRegClkSrc as BitPattern>::variant_bits(2)),
    )) by {
        assert(<XC2MCRegClkSrc as BitPattern>::variant_bits(1)[1] == PatBit::One);
        assert(<XC2MCRegClkSrc as BitPattern>::variant_bits(2)[1] == PatBit::Zero);
    }
    assert(!pattern_matches(
        <XC2MCRegClkSrc as BitPattern>::variant_bits(0),
        encode_bits(<XC2MCRegClkSrc as BitPattern>::variant_bits(3)),
    )) by {
        assert(<XC2MCRegClkSrc as BitPattern>::variant_bits(0)[1] == PatBit::Zero);
        assert(<XC2MCRegClkSrc as BitPattern>::variant_bits(3)[1] == PatBit::One);
    }
    assert(!pattern_matches(
        <XC2MCRegClkSrc as BitPattern>::variant_bits(1),
        encode_bits(<XC2MCRegClkSrc as BitPattern>::variant_bits(3)),
    )) by {
        assert(<XC2MCRegClkSrc as BitPattern>::variant_bits(1)[2] == PatBit::Zero);
        assert(<XC2MCRegClkSrc as BitPattern>::variant_bits(3)[2] == PatBit::One);
    }
    assert(!pattern_matches(
        <XC2MCRegClkSrc as BitPattern>::variant_bits(2),
        encode_bits(<XC2MCRegClkSrc as BitPattern>::variant_bits(3)),
    )) by {
        assert(<XC2MCRegClkSrc as BitPattern>::variant_bits(2)[1] == PatBit::Zero);
        assert(<XC2MCRegClkSrc as BitPattern>::variant_bits(3)[1] == PatBit::One);
    }
    assert(!pattern_matches(
        <XC2MCRegClkSrc as BitPattern>::variant_bits(0),
        encode_bits(<XC2MCRegClkSrc as BitPattern>::variant_bits(4)),
    )) by {
        assert(<XC2MCRegClkSrc as BitPattern>::variant_bits(0)[1] == PatBit::Zero);
        assert(<XC2MCRegClkSrc as BitPattern>::variant_bits(4)[1] == PatBit::One);
    }
    assert(!pattern_matches(
        <XC2MCRegClkSrc as BitPattern>::variant_bits(1),
        encode_bits(<XC2MCRegClkSrc as BitPattern>::variant_bits(4)),
    )) by {
        assert(<XC2MCRegClkSrc as BitPattern>::variant_bits(1)[2] == PatBit::Zero);
        assert(<XC2MCRegClkSrc as BitPattern>::variant_bits(4)[2] == PatBit::One);
    }
    assert(!pattern_matches(
        <XC2MCRegClkSrc as BitPattern>::variant_bits(2),
        encode_bits(<XC2MCRegClkSrc as BitPattern>::variant_bits(4)),
    )) by {
        assert(<XC2MCRegClkSrc as BitPattern>::variant_bits(2)[1] == PatBit::Zero);
        assert(<XC2MCRegClkSrc as BitPattern>::variant_bits(4)[1] == PatBit::One);
    }
    assert(!pattern_matches(
        <XC2MCRegClkSrc as BitPattern>::variant_bits(3),
        encode_bits(<XC2MCRegClkSrc as BitPattern>::variant_bits(4)),
    )) by {
        assert(<XC2MCRegClkSrc as BitPattern>::variant_bits(3)[0] == PatBit::Zero);
        assert(<XC2MCRegClkSrc as BitPattern>::variant_bits(4)[0] == PatBit::One);
    }
    assert forall|v: int| 0 <= v < 5 implies !#[trigger] shadowed::<XC2MCRegClkSrc>(v) by {
        assert(v == 0 || v == 1 || v == 2 || v == 3 || v == 4);
    }
}

/// No variant of `XC2MCRegResetSrc` is shadowed by an earlier one, so every
/// variant survives an encode and decode.
pub proof fn lemma_reset_src_unshadowed()
    ensures
        forall|v: int| 0 <= v < 4 ==> !#[trigger] shadowed::<XC2MCRegResetSrc>(v),
{
    assert(!pattern_matches(
        <XC2MCRegResetSrc as BitPattern>::variant_bits(0),
        encode_bits(<XC2MCRegResetSrc as BitPattern>::variant_bits(1)),
    )) by {
        assert(<XC2MCRegResetSrc as BitPattern>::variant_bits(0)[0] == PatBit::One);
        assert(<XC2MCRegResetSrc as BitPattern>::variant_bits(1)[0] == PatBit::Zero);
    }
    assert(!pattern_matches(
        <XC2MCRegResetSrc as BitPattern>::variant_bits(0),
        encode_bits(<XC2MCRegResetSrc as BitPattern>::variant_bits(2)),
    )) by {
        assert(<XC2MCRegResetSrc as BitPattern>::variant_bits(0)[0] == PatBit::One);
        assert(<XC2MCRegResetSrc as BitPattern>::variant_bits(2)[0] == PatBit::Zero);
    }
    assert(!pattern_matches(
        <XC2MCRegResetSrc as BitPattern>::variant_bits(1),
        encode_bits(<XC2MCRegResetSrc as BitPattern>::variant_bits(2)),
    )) by {
        assert(<XC2MCRegResetSrc as BitPattern>::variant_bits(1)[1] == PatBit::Zero);
        assert(<XC2MCRegResetSrc as BitPattern>::variant_bits(2)[1] == PatBit::One);
    }
    assert(!pattern_matches(
        <XC2MCRegResetSrc as BitPattern>::variant_bits(0),
        encode_bits(<XC2MCRegResetSrc as BitPattern>::variant_bits(3)),
    )) by {
        assert(<XC2MCRegResetSrc as BitPattern>::variant_bits(0)[1] == PatBit::One);
        assert(<XC2MCRegResetSrc as BitPattern>::variant_bits(3)[1] == PatBit::Zero);
    }
    assert(!pattern_matches(
        <XC2MCRegResetSrc as BitPattern>::variant_bits(1),
        encode_bits(<XC2MCRegResetSrc as BitPattern>::variant_bits(3)),
    )) by {
        assert(<XC2MCRegResetSrc as BitPattern>::variant_bits(1)[0] == PatBit::Zero);
        assert(<XC2MCRegResetSrc as BitPattern>::variant_bits(3)[0] == PatBit::One);
    }
    assert(!pattern_matches(
        <XC2MCRegResetSrc as BitPattern>::variant_bits(2),
        encode_bits(<XC2MCRegResetSrc as BitPattern>::variant_bits(3)),
    )) by {
        assert(<XC2MCRegResetSrc as BitPattern>::variant_bits(2)[0] == PatBit::Zero);
        assert(<XC2MCRegResetSrc as BitPattern>::variant_bits(3)[0] == PatBit::One);
    }
    assert forall|v: int| 0 <= v < 4 implies !#[trigger] shadowed::<XC2MCRegResetSrc>(v) by {
        assert(v == 0 || v == 1 || v == 2 || v == 3);
    }
}

/// No variant of `XC2MCRegSetSrc` is shadowed by an earlier one, so every
/// variant survives an encode and decode.
pub proof fn lemma_set_src_unshadowed()
    ensures
        forall|v: int| 0 <= v < 4 ==> !#[trigger] shadowed::<XC2MCRegSetSrc>(v),
{
    assert(!pattern_matches(
        <XC2MCRegSetSrc as BitPattern>::variant_bits(0),
        encode_bits(<XC2MCRegSetSrc as BitPattern>::variant_bits(1)),
    )) by {
        assert(<XC2MCRegSetSrc as BitPattern>::variant_bits(0)[0] == PatBit::One);
        assert(<XC2MCRegSetSrc as BitPattern>::variant_bits(1)[0] == PatBit::Zero);
    }
    assert(!pattern_matches(
        <XC2MCRegSetSrc as BitPattern>::variant_bits(0),
        encode_bits(<XC2MCRegSetSrc as BitPattern>::variant_bits(2)),
    )) by {
        assert(<XC2MCRegSetSrc as BitPattern>::variant_bits(0)[0] == PatBit::One);
        assert(<XC2MCRegSetSrc as BitPattern>::variant_bits(2)[0] == PatBit::Zero);
    }
    assert(!pattern_matches(
        <XC2MCRegSetSrc as BitPattern>::variant_bits(1),
        encode_bits(<XC2MCRegSetSrc as BitPattern>::variant_bits(2)),
    )) by {
        assert(<XC2MCRegSetSrc as BitPattern>::variant_bits(1)[1] == PatBit::Zero);
        assert(<XC2MCRegSetSrc as BitPattern>::variant_bits(2)[1] == PatBit::One);
    }
    assert(!pattern_matches(
        <XC2MCRegSetSrc as BitPattern>::variant_bits(0),
        encode_bits(<XC2MCRegSetSrc as BitPattern>::variant_bits(3)),
    )) by {
        assert(<XC2MCRegSetSrc as BitPattern>::variant_bits(0)[1] == PatBit::One);
        assert(<XC2MCRegSetSrc as BitPattern>::variant_bits(3)[1] == PatBit::Zero);
    }
    assert(!pattern_matches(
        <XC2MCRegSetSrc as BitPattern>::variant_bits(1),
        encode_bits(<XC2MCRegSetSrc as BitPattern>::variant_bits(3)),
    )) by {
        assert(<XC2MCRegSetSrc as BitPattern>::variant_bits(1)[0] == PatBit::Zero);
        assert(<XC2MCRegSetSrc as BitPattern>::variant_bits(3)[0] == PatBit::One);
    }
    assert(!pattern_matches(
        <XC2MCRegSetSrc as BitPattern>::variant_bits(2),
        encode_bits(<XC2MCRegSetSrc as BitPattern>::variant_bits(3)),
    )) by {
        assert(<XC2MCRegSetSrc as BitPattern>::variant_bits(2)[0] == PatBit::Zero);
        assert(<XC2MCRegSetSrc as BitPattern>::variant_bits(3)[0] == PatBit::One);
    }
    assert forall|v: int| 0 <= v < 4 implies !#[trigger] shadowed::<XC2MCRegSetSrc>(v) by {
        assert(v == 0 || v == 1 || v == 2 || v == 3);
    }
}

/// No variant of `XC2MCRegMode` is shadowed by an earlier one, so every
/// variant survives an encode and decode.
pub proof fn lemma_reg_mode_unshadowed()
    ensures
        forall|v: int| 0 <= v < 4 ==> !#[trigger] shadowed::<XC2MCRegMode>(v),
{
    assert(!pattern_matches(
        <XC2MCRegMode as BitPattern>::variant_bits(0),
        encode_bits(<XC2MCRegMode as BitPattern>::variant_bits(1)),
    )) by {
        assert(<XC2MCRegMode as BitPattern>::variant_bits(0)[1] == PatBit::Zero);
        assert(<XC2MCRegMode as BitPattern>::variant_bits(1)[1] == PatBit::One);
    }
    assert(!pattern_matches(
        <XC2MCRegMode as BitPattern>::variant_bits(0),
        encode_bits(<XC2MCRegMode as BitPattern>::variant_bits(2)),
    )) by {
        assert(<XC2MCRegMode as BitPattern>::variant_bits(0)[0] == PatBit::Zero);
        assert(<XC2MCRegMode as BitPattern>::variant_bits(2)[0] == PatBit::One);
    }
    assert(!pattern_matches(
        <XC2MCRegMode as BitPattern>::variant_bits(1),
        encode_bits(<XC2MCRegMode as BitPattern>::variant_bits(2)),
    )) by {
        assert(<XC2MCRegMode as BitPattern>::variant_bits(1)[0] == PatBit::Zero);
        assert(<XC2MCRegMode as BitPattern>::variant_bits(2)[0] == PatBit::One);
    }
    assert(!pattern_matches(
        <XC2MCRegMode as BitPattern>::variant_bits(0),
        encode_bits(<XC2MCRegMode as BitPattern>::variant_bits(3)),
    )) by {
        assert(<XC2MCRegMode as BitPattern>::variant_bits(0)[0] == PatBit::Zero);
        assert(<XC2MCRegMode as BitPattern>::variant_bits(3)[0] == PatBit::One);
    }
    assert(!pattern_matches(
        <XC2MCRegMode as BitPattern>::variant_bits(1),
        encode_bits(<XC2MCRegMode as BitPattern>::variant_bits(3)),
    )) by {
        assert(<XC2MCRegMode as BitPattern>::variant_bits(1)[0] == PatBit::Zero);
        assert(<XC2MCRegMode as BitPattern>::variant_bits(3)[0] == PatBit::One);
    }
    assert(!pattern_matches(
        <XC2MCRegMode as BitPattern>::variant_bits(2),
        encode_bits(<XC2MCRegMode as BitPattern>::variant_bits(3)),
    )) by {
        assert(<XC2MCRegMode as BitPattern>::variant_bits(2)[1] == PatBit::Zero);
        assert(<XC2MCRegMode as BitPattern>::variant_bits(3)[1] == PatBit::One);
    }
    assert forall|v: int| 0 <= v < 4 implies !#[trigger] shadowed::<XC2MCRegMode>(v) by {
        assert(v == 0 || v == 1 || v == 2 || v == 3);
    }
}

/// No variant of `XC2MCFeedbackMode` is shadowed by an earlier one, so every
/// variant survives an encode and decode.
pub proof fn lemma_feedback_mode_unshadowed()
    ensures
        forall|v: int| 0 <= v < 3 ==> !#[trigger] shadowed::<XC2MCFeedbackMode>(v),
{
    assert(!pattern_matches(
        <XC2MCFeedbackMode as BitPattern>::variant_bits(0),
        encode_bits(<XC2MCFeedbackMode as BitPattern>::variant_bits(1)),
    )) by {
        assert(<XC2MCFeedbackMode as BitPattern>::variant_bits(0)[1] == PatBit::One);
        assert(<XC2MCFeedbackMode as BitPattern>::variant_bits(1)[1] == PatBit::Zero);
    }
    assert(!pattern_matches(
        <XC2MCFeedbackMode as BitPattern>::variant_bits(0),
        encode_bits(<XC2MCFeedbackMode as BitPattern>::variant_bits(2)),
    )) by {
        assert(<XC2MCFeedbackMode as BitPattern>::variant_bits(0)[1] == PatBit::One);
        assert(<XC2MCFeedbackMode as BitPattern>::variant_bits(2)[1] == PatBit::Zero);
    }
    assert(!pattern_matches(
        <XC2MCFeedbackMode as BitPattern>::variant_bits(1),
        encode_bits(<XC2MCFeedbackMode as BitPattern>::variant_bits(2)),
    )) by {
        assert(<XC2MCFeedbackMode as BitPattern>::variant_bits(1)[0] == PatBit::Zero);
        assert(<XC2MCFeedbackMode as BitPattern>::variant_bits(2)[0] == PatBit::One);
    }
    assert forall|v: int| 0 <= v < 3 implies !#[trigger] shadowed::<XC2MCFeedbackMode>(v) by {
        assert(v == 0 || v == 1 || v == 2);
    }
}

/// No variant of `XC2MCXorMode` is shadowed by an earlier one, so every
/// variant survives an encode and decode.
pub proof fn lemma_xor_mode_unshadowed()
    ensures
        forall|v: int| 0 <= v < 4 ==> !#[trigger] shadowed::<XC2MCXorMode>(v),
{
    assert(!pattern_matches(
        <XC2MCXorMode as BitPattern>::variant_bits(0),
        encode_bits(<XC2MCXorMode as BitPattern>::variant_bits(1)),
    )) by {
        assert(<XC2MCXorMode as BitPattern>::variant_bits(0)[0] == PatBit::Zero);
        assert(<XC2MCXorMode as BitPattern>::variant_bits(1)[0] == PatBit::One);
    }
    assert(!pattern_matches(
        <XC2MCXorMode as BitPattern>::variant_bits(0),
        encode_bits(<XC2MCXorMode as BitPattern>::variant_bits(2)),
    )) by {
        assert(<XC2MCXorMode as BitPattern>::variant_bits(0)[0] == PatBit::Zero);
        assert(<XC2MCXorMode as BitPattern>::variant_bits(2)[0] == PatBit::One);
    }
    assert(!pattern_matches(
        <XC2MCXorMode as BitPattern>::variant_bits(1),
        encode_bits(<XC2MCXorMode as BitPattern>::variant_bits(2)),
    )) by {
        assert(<XC2MCXorMode as BitPattern>::variant_bits(1)[1] == PatBit::One);
        assert(<XC2MCXorMode as BitPattern>::variant_bits(2)[1] == PatBit::Zero);
    }
    assert(!pattern_matches(
        <XC2MCXorMode as BitPattern>::variant_bits(0),
        encode_bits(<XC2MCXorMode as BitPattern>::variant_bits(3)),
    )) by {
        assert(<XC2MCXorMode as BitPattern>::variant_bits(0)[1] == PatBit::Zero);
        assert(<XC2MCXorMode as BitPattern>::variant_bits(3)[1] == PatBit::One);
    }
    assert(!pattern_matches(
        <XC2MCXorMode as BitPattern>::variant_bits(1),
        encode_bits(<XC2MCXorMode as BitPattern>::variant_bits(3)),
    )) by {
        assert(<XC2MCXorMode as BitPattern>::variant_bits(1)[0] == PatBit::One);
        assert(<XC2MCXorMode as BitPattern>::variant_bits(3)[0] == PatBit::Zero);
    }
    assert(!pattern_matches(
        <XC2MCXorMode as BitPattern>::variant_bits(2),
        encode_bits(<XC2MCXorMode as BitPattern>::variant_bits(3)),
    )) by {
        assert(<XC2MCXorMode as BitPattern>::variant_bits(2)[0] == PatBit::One);
        assert(<XC2MCXorMode as BitPattern>::variant_bits(3)[0] == PatBit::Zero);
    }
    assert forall|v: int| 0 <= v < 4 implies !#[trigger] shadowed::<XC2MCXorMode>(v) by {
        assert(v == 0 || v == 1 || v == 2 || v == 3);
    }
}

/// Layout of a macrocell in the JEDEC fuse file of the small devices (one dimension).
pub enum JedSmall {
    /// The tag's one value.
    Tag,
}

/// Layout of a macrocell in the JEDEC fuse file of the large devices; buried macrocells use a reduced layout.
pub enum JedLarge {
    /// The tag's one value.
    Tag,
}

/// Layout of a macrocell with an I/O pin in the JEDEC fuse file of the large devices (one dimension).
pub enum JedLargeUnburied {
    /// The tag's one value.
    Tag,
}

/// Layout of a buried macrocell in the JEDEC fuse file of the large devices (one dimension).
pub enum JedLargeBuried {
    /// The tag's one value.
    Tag,
}

/// Layout of a macrocell in the configuration bitmap of the 32-macrocell device (two dimensions).
pub enum Crbit32 {
    /// The tag's one value.
    Tag,
}

/// Layout of a macrocell in the configuration bitmap of the 64-macrocell device (two dimensions).
pub enum Crbit64 {
    /// The tag's one value.
    Tag,
}

/// Layout of a macrocell in the configuration bitmap of the 256-macrocell device (two dimensions).
pub enum Crbit256 {
    /// The tag's one value.
    Tag,
}

/// Layout of a macrocell in the configuration bitmap of the other large devices (two dimensions).
pub enum CrbitLarge {
    /// The tag's one value.
    Tag,
}

/// The settings of one macrocell.
#[derive(Clone, Copy, Debug, PartialEq, Eq, Hash, Structural)]
pub struct XC2Macrocell {
    /// Clock source for the register
    pub clk_src: XC2MCRegClkSrc,
    /// Specifies the clock polarity for the register
    ///
    /// `false` = rising edge triggered flip-flop, transparent-when-high latch
    ///
    /// `true` = falling edge triggered flip-flop, transparent-when-low latch
    pub clk_invert_pol: bool,
    /// Specifies whether flip-flop are triggered on both clock edges
    ///
    /// It is currently unknown what happens when this is used on a transparent latch
    pub is_ddr: bool,
    /// Reset source for the register
    pub r_src: XC2MCRegResetSrc,
    /// Set source for the register
    pub s_src: XC2MCRegSetSrc,
    /// Power-up state of the register
    ///
    /// `false` = init to 0, `true` = init to 1
    pub init_state: bool,
    /// Register mode
    pub reg_mode: XC2MCRegMode,
    /// ZIA input mode for feedback from this macrocell
    pub fb_mode: XC2MCFeedbackMode,
    /// Controls the input for the register
    ///
    /// `false` = use the output of the XOR gate (combinatorial path), `true` = use IOB direct path
    /// (`true` is illegal for buried macrocells in the larger devices)
    pub ff_in_ibuf: bool,
    /// Controls the "other" (not from the OR term) input to the XOR gate
    pub xor_mode: XC2MCXorMode,
}

/// Index, in a macrocell layout's pattern table, of the pattern of field `k`.
pub open spec fn mc_pattern(k: int) -> int {
    if k == 0 {
        0
    } else if k == 1 {
        1
    } else if k == 2 {
        1
    } else if k == 3 {
        2
    } else if k == 4 {
        3
    } else if k == 5 {
        1
    } else if k == 6 {
        4
    } else if k == 7 {
        5
    } else if k == 8 {
        1
    } else {
        6
    }
}

/// `l` is a layout of a macrocell: the seven patterns of its fields, in
/// order, and its ten fields in declaration order, each over its pattern.
pub open spec fn is_macrocell_layout(l: FragmentLayout) -> bool {
    &&& l.wf()
    &&& l.patterns@.len() == 7
    &&& describes::<XC2MCRegClkSrc>(l.patterns@[0])
    &&& describes::<bool>(l.patterns@[1])
    &&& describes::<XC2MCRegResetSrc>(l.patterns@[2])
    &&& describes::<XC2MCRegSetSrc>(l.patterns@[3])
    &&& describes::<XC2MCRegMode>(l.patterns@[4])
    &&& describes::<XC2MCFeedbackMode>(l.patterns@[5])
    &&& describes::<XC2MCXorMode>(l.patterns@[6])
    &&& l.fields@.len() == 10
    &&& forall|k: int| 0 <= k < 10 ==> #[trigger] l.fields@[k].pattern == mc_pattern(k)
}

/// Names, descriptions and kinds of the fields of a macrocell layout.
pub open spec fn macrocell_field_docs(l: FragmentLayout) -> bool {
    &&& l.fields@[0].name@ == "clk_src"@
    &&& l.fields@[0].desc@ == "Clock source for the register"@
    &&& l.fields@[0].kind == FieldKind::Pattern
    &&& l.fields@[1].name@ == "clk_invert_pol"@
    &&& l.fields@[1].desc@ == "Specifies the clock polarity for the register `false` = rising edge triggered flip-flop, transparent-when-high latch `true` = falling edge triggered flip-flop, transparent-when-low latch"@
    &&& l.fields@[1].kind == FieldKind::Pattern
    &&& l.fields@[2].name@ == "is_ddr"@
    &&& l.fields@[2].desc@ == "Specifies whether flip-flop are triggered on both clock edges It is currently unknown what happens when this is used on a transparent latch"@
    &&& l.fields@[2].kind == FieldKind::Pattern
    &&& l.fields@[3].name@ == "r_src"@
    &&& l.fields@[3].desc@ == "Reset source for the register"@
    &&& l.fields@[3].kind == FieldKind::Pattern
    &&& l.fields@[4].name@ == "s_src"@
    &&& l.fields@[4].desc@ == "Set source for the register"@
    &&& l.fields@[4].kind == FieldKind::Pattern
    &&& l.fields@[5].name@ == "init_state"@
    &&& l.fields@[5].desc@ == "Power-up state of the register `false` = init to 0, `true` = init to 1"@
    &&& l.fields@[5].kind == FieldKind::Pattern
    &&& l.fields@[6].name@ == "reg_mode"@
    &&& l.fields@[6].desc@ == "Register mode"@
    &&& l.fields@[6].kind == FieldKind::Pattern
    &&& l.fields@[7].name@ == "fb_mode"@
    &&& l.fields@[7].desc@ == "ZIA input mode for feedback from this macrocell"@
    &&& l.fields@[7].kind == FieldKind::Pattern
    &&& l.fields@[8].name@ == "ff_in_ibuf"@
    &&& l.fields@[8].desc@ == "Controls the input for the register `false` = use the output of the XOR gate (combinatorial path), `true` = use IOB direct path (`true` is illegal for buried macrocells in the larger devices)"@
    &&& l.fields@[8].kind == FieldKind::Pattern
    &&& l.fields@[9].name@ == "xor_mode"@
    &&& l.fields@[9].desc@ == "Controls the \"other\" (not from the OR term) input to the XOR gate"@
    &&& l.fields@[9].kind == FieldKind::Pattern
}

/// A stored bit at `x`.
fn at1(x: isize, invert: bool) -> (r: BitPlacement)
    ensures
        is_local(r),
        local_of(r) == seq![x],
        r.invert == invert,
{
    let mut v: Vec<isize> = Vec::new();
    v.push(x);
    assert(v@ =~= seq![x]);
    BitPlacement { pos: BitPos::Local(v), invert }
}

/// A stored bit at column `x`, row `y`.
fn at2(x: isize, y: isize, invert: bool) -> (r: BitPlacement)
    ensures
        is_local(r),
        local_of(r) == seq![x, y],
        r.invert == invert,
{
    let mut v: Vec<isize> = Vec::new();
    v.push(x);
    v.push(y);
    assert(v@ =~= seq![x, y]);
    BitPlacement { pos: BitPos::Local(v), invert }
}

/// A bit that is not stored and reads as `v`.
fn fixed(v: bool) -> (r: BitPlacement)
    ensures
        !is_local(r),
        fixed_of(r) == v,
        !r.invert,
{
    BitPlacement { pos: BitPos::Fixed(v), invert: false }
}

/// A pattern-valued field.
fn field(name: &str, desc: &str, pattern: usize, bits: Vec<BitPlacement>) -> (r: FieldLayout)
    ensures
        r.name@ == name@,
        r.desc@ == desc@,
        r.kind == FieldKind::Pattern,
        r.pattern == pattern,
        r.bits@ == bits@,
{
    FieldLayout {
        name: String::from_str(name),
        desc: String::from_str(desc),
        kind: FieldKind::Pattern,
        pattern,
        bits,
    }
}

/// An empty macrocell layout over `dims` dimensions with the seven
/// patterns of the fields in its table.
fn macrocell_patterns(dims: usize) -> (r: FragmentLayout)
    ensures
        r.wf(),
        r.dims == dims,
        r.fields@.len() == 0,
        r.patterns@.len() == 7,
        describes::<XC2MCRegClkSrc>(r.patterns@[0]),
        describes::<bool>(r.patterns@[1]),
        describes::<XC2MCRegResetSrc>(r.patterns@[2]),
        describes::<XC2MCRegSetSrc>(r.patterns@[3]),
        describes::<XC2MCRegMode>(r.patterns@[4]),
        describes::<XC2MCFeedbackMode>(r.patterns@[5]),
        describes::<XC2MCXorMode>(r.patterns@[6]),
        r.patterns@[0].bits_count() == 3,
        r.patterns@[1].bits_count() == 1,
        r.patterns@[2].bits_count() == 2,
        r.patterns@[3].bits_count() == 2,
        r.patterns@[4].bits_count() == 2,
        r.patterns@[5].bits_count() == 2,
        r.patterns@[6].bits_count() == 2,
{
    let mut l = FragmentLayout::new(dims);
    l.add_pattern(<XC2MCRegClkSrc as BitPattern>::schema());
    l.add_pattern(<bool as BitPattern>::schema());
    l.add_pattern(<XC2MCRegResetSrc as BitPattern>::schema());
    l.add_pattern(<XC2MCRegSetSrc as BitPattern>::schema());
    l.add_pattern(<XC2MCRegMode as BitPattern>::schema());
    l.add_pattern(<XC2MCFeedbackMode as BitPattern>::schema());
    l.add_pattern(<XC2MCXorMode as BitPattern>::schema());
    assert(<XC2MCRegClkSrc as BitPattern>::bits_count() == 3);
    assert(<bool as BitPattern>::bits_count() == 1);
    assert(<XC2MCRegResetSrc as BitPattern>::bits_count() == 2);
    assert(<XC2MCRegSetSrc as BitPattern>::bits_count() == 2);
    assert(<XC2MCRegMode as BitPattern>::bits_count() == 2);
    assert(<XC2MCFeedbackMode as BitPattern>::bits_count() == 2);
    assert(<XC2MCXorMode as BitPattern>::bits_count() == 2);
    l
}

/// `b` is stored at local position `c`, inverted where `invert` says.
pub open spec fn stored_at(b: BitPlacement, c: Seq<isize>, invert: bool) -> bool {
    is_local(b) && local_of(b) == c && b.invert == invert
}

/// `b` is not stored and reads as `v`.
pub open spec fn fixed_as(b: BitPlacement, v: bool) -> bool {
    !is_local(b) && fixed_of(b) == v && !b.invert
}

impl JedSmall {
    /// Where each bit of each field of `l` lies in this layout.
    pub open spec fn placements(l: FragmentLayout) -> bool {
        &&& stored_at(l.fields@[0].bits@[0], seq![0isize], false)
        &&& stored_at(l.fields@[0].bits@[1], seq![2isize], false)
        &&& stored_at(l.fields@[0].bits@[2], seq![3isize], false)
        &&& stored_at(l.fields@[1].bits@[0], seq![1isize], false)
        &&& stored_at(l.fields@[2].bits@[0], seq![4isize], false)
        &&& stored_at(l.fields@[3].bits@[0], seq![5isize], false)
        &&& stored_at(l.fields@[3].bits@[1], seq![6isize], false)
        &&& stored_at(l.fields@[4].bits@[0], seq![7isize], false)
        &&& stored_at(l.fields@[4].bits@[1], seq![8isize], false)
        &&& stored_at(l.fields@[5].bits@[0], seq![26isize], true)
        &&& stored_at(l.fields@[6].bits@[0], seq![9isize], false)
        &&& stored_at(l.fields@[6].bits@[1], seq![10isize], false)
        &&& stored_at(l.fields@[7].bits@[0], seq![13isize], false)
        &&& stored_at(l.fields@[7].bits@[1], seq![14isize], false)
        &&& stored_at(l.fields@[8].bits@[0], seq![15isize], true)
        &&& stored_at(l.fields@[9].bits@[0], seq![17isize], false)
        &&& stored_at(l.fields@[9].bits@[1], seq![18isize], false)
    }

    /// The macrocell layout of this tag.
    pub fn layout() -> (r: FragmentLayout)
        ensures
            is_macrocell_layout(r),
            r.dims == 1,
            Self::placements(r),
            macrocell_field_docs(r),
    {
        let mut l = macrocell_patterns(1);
        l.push_field(
            field(
                "clk_src",
                "Clock source for the register",
                0,
                vec![at1(0, false), at1(2, false), at1(3, false)],
            ),
        );
        l.push_field(
            field(
                "clk_invert_pol",
                "Specifies the clock polarity for the register `false` = rising edge triggered flip-flop, transparent-when-high latch `true` = falling edge triggered flip-flop, transparent-when-low latch",
                1,
                vec![at1(1, false)],
            ),
        );
        l.push_field(
            field(
                "is_ddr",
                "Specifies whether flip-flop are triggered on both clock edges It is currently unknown what happens when this is used on a transparent latch",
                1,
                vec![at1(4, false)],
            ),
        );
        l.push_field(
            field(
                "r_src",
                "Reset source for the register",
                2,
                vec![at1(5, false), at1(6, false)],
            ),
        );
        l.push_field(
            field(
                "s_src",
                "Set source for the register",
                3,
                vec![at1(7, false), at1(8, false)],
            ),
        );
        l.push_field(
            field(
                "init_state",
                "Power-up state of the register `false` = init to 0, `true` = init to 1",
                1,
                vec![at1(26, true)],
            ),
        );
        l.push_field(
            field(
                "reg_mode",
                "Register mode",
                4,
                vec![at1(9, false), at1(10, false)],
            ),
        );
        l.push_field(
            field(
                "fb_mode",
                "ZIA input mode for feedback from this macrocell",
                5,
                vec![at1(13, false), at1(14, false)],
            ),
        );
        l.push_field(
            field(
                "ff_in_ibuf",
                "Controls the input for the register `false` = use the output of the XOR gate (combinatorial path), `true` = use IOB direct path (`true` is illegal for buried macrocells in the larger devices)",
                1,
                vec![at1(15, true)],
            ),
        );
        l.push_field(
            field(
                "xor_mode",
                "Controls the \"other\" (not from the OR term) input to the XOR gate",
                6,
                vec![at1(17, false), at1(18, false)],
            ),
        );
        l
    }
}

impl JedLargeUnburied {
    /// Where each bit of each field of `l` lies in this layout.
    pub open spec fn placements(l: FragmentLayout) -> bool {
        &&& stored_at(l.fields@[0].bits@[0], seq![0isize], false)
        &&& stored_at(l.fields@[0].bits@[1], seq![1isize], false)
        &&& stored_at(l.fields@[0].bits@[2], seq![2isize], false)
        &&& stored_at(l.fields@[1].bits@[0], seq![4isize], false)
        &&& stored_at(l.fields@[2].bits@[0], seq![3isize], false)
        &&& stored_at(l.fields@[3].bits@[0], seq![23isize], false)
        &&& stored_at(l.fields@[3].bits@[1], seq![24isize], false)
        &&& stored_at(l.fields@[4].bits@[0], seq![17isize], false)
        &&& stored_at(l.fields@[4].bits@[1], seq![18isize], false)
        &&& stored_at(l.fields@[5].bits@[0], seq![19isize], true)
        &&& stored_at(l.fields@[6].bits@[0], seq![21isize], false)
        &&& stored_at(l.fields@[6].bits@[1], seq![22isize], false)
        &&& stored_at(l.fields@[7].bits@[0], seq![6isize], false)
        &&& stored_at(l.fields@[7].bits@[1], seq![7isize], false)
        &&& stored_at(l.fields@[8].bits@[0], seq![10isize], true)
        &&& stored_at(l.fields@[9].bits@[0], seq![27isize], false)
        &&& stored_at(l.fields@[9].bits@[1], seq![28isize], false)
    }

    /// The macrocell layout of this tag.
    pub fn layout() -> (r: FragmentLayout)
        ensures
            is_macrocell_layout(r),
            r.dims == 1,
            Self::placements(r),
            macrocell_field_docs(r),
    {
        let mut l = macrocell_patterns(1);
        l.push_field(
            field(
                "clk_src",
                "Clock source for the register",
                0,
                vec![at1(0, false), at1(1, false), at1(2, false)],
            ),
        );
        l.push_field(
            field(
                "clk_invert_pol",
                "Specifies the clock polarity for the register `false` = rising edge triggered flip-flop, transparent-when-high latch `true` = falling edge triggered flip-flop, transparent-when-low latch",
                1,
                vec![at1(4, false)],
            ),
        );
        l.push_field(
            field(
                "is_ddr",
                "Specifies whether flip-flop are triggered on both clock edges It is currently unknown what happens when this is used on a transparent latch",
                1,
                vec![at1(3, false)],
            ),
        );
        l.push_field(
            field(
                "r_src",
                "Reset source for the register",
                2,
                vec![at1(23, false), at1(24, false)],
            ),
        );
        l.push_field(
            field(
                "s_src",
                "Set source for the register",
                3,
                vec![at1(17, false), at1(18, false)],
            ),
        );
        l.push_field(
            field(
                "init_state",
                "Power-up state of the register `false` = init to 0, `true` = init to 1",
                1,
                vec![at1(19, true)],
            ),
        );
        l.push_field(
            field(
                "reg_mode",
                "Register mode",
                4,
                vec![at1(21, false), at1(22, false)],
            ),
        );
        l.push_field(
            field(
                "fb_mode",
                "ZIA input mode for feedback from this macrocell",
                5,
                vec![at1(6, false), at1(7, false)],
            ),
        );
        l.push_field(
            field(
                "ff_in_ibuf",
                "Controls the input for the register `false` = use the output of the XOR gate (combinatorial path), `true` = use IOB direct path (`true` is illegal for buried macrocells in the larger devices)",
                1,
                vec![at1(10, true)],
            ),
        );
        l.push_field(
            field(
                "xor_mode",
                "Controls the \"other\" (not from the OR term) input to the XOR gate",
                6,
                vec![at1(27, false), at1(28, false)],
            ),
        );
        l
    }
}

impl JedLargeBuried {
    /// Where each bit of each field of `l` lies in this layout.
    pub open spec fn placements(l: FragmentLayout) -> bool {
        &&& stored_at(l.fields@[0].bits@[0], seq![0isize], false)
        &&& stored_at(l.fields@[0].bits@[1], seq![1isize], false)
        &&& stored_at(l.fields@[0].bits@[2], seq![2isize], false)
        &&& stored_at(l.fields@[1].bits@[0], seq![4isize], false)
        &&& stored_at(l.fields@[2].bits@[0], seq![3isize], false)
        &&& stored_at(l.fields@[3].bits@[0], seq![12isize], false)
        &&& stored_at(l.fields@[3].bits@[1], seq![13isize], false)
        &&& stored_at(l.fields@[4].bits@[0], seq![7isize], false)
        &&& stored_at(l.fields@[4].bits@[1], seq![8isize], false)
        &&& stored_at(l.fields@[5].bits@[0], seq![9isize], true)
        &&& stored_at(l.fields@[6].bits@[0], seq![10isize], false)
        &&& stored_at(l.fields@[6].bits@[1], seq![11isize], false)
        &&& stored_at(l.fields@[7].bits@[0], seq![5isize], false)
        &&& stored_at(l.fields@[7].bits@[1], seq![6isize], false)
        &&& fixed_as(l.fields@[8].bits@[0], false)
        &&& stored_at(l.fields@[9].bits@[0], seq![14isize], false)
        &&& stored_at(l.fields@[9].bits@[1], seq![15isize], false)
    }

    /// The macrocell layout of this tag.
    pub fn layout() -> (r: FragmentLayout)
        ensures
            is_macrocell_layout(r),
            r.dims == 1,
            Self::placements(r),
            macrocell_field_docs(r),
    {
        let mut l = macrocell_patterns(1);
        l.push_field(
            field(
                "clk_src",
                "Clock source for the register",
                0,
                vec![at1(0, false), at1(1, false), at1(2, false)],
            ),
        );
        l.push_field(
            field(
                "clk_invert_pol",
                "Specifies the clock polarity for the register `false` = rising edge triggered flip-flop, transparent-when-high latch `true` = falling edge triggered flip-flop, transparent-when-low latch",
                1,
                vec![at1(4, false)],
            ),
        );
        l.push_field(
            field(
                "is_ddr",
                "Specifies whether flip-flop are triggered on both clock edges It is currently unknown what happens when this is used on a transparent latch",
                1,
                vec![at1(3, false)],
            ),
        );
        l.push_field(
            field(
                "r_src",
                "Reset source for the register",
                2,
                vec![at1(12, false), at1(13, false)],
            ),
        );
        l.push_field(
            field(
                "s_src",
                "Set source for the register",
                3,
                vec![at1(7, false), at1(8, false)],
            ),
        );
        l.push_field(
            field(
                "init_state",
                "Power-up state of the register `false` = init to 0, `true` = init to 1",
                1,
                vec![at1(9, true)],
            ),
        );
        l.push_field(
            field(
                "reg_mode",
                "Register mode",
                4,
                vec![at1(10, false), at1(11, false)],
            ),
        );
        l.push_field(
            field(
                "fb_mode",
                "ZIA input mode for feedback from this macrocell",
                5,
                vec![at1(5, false), at1(6, false)],
            ),
        );
        l.push_field(
            field(
                "ff_in_ibuf",
                "Controls the input for the register `false` = use the output of the XOR gate (combinatorial path), `true` = use IOB direct path (`true` is illegal for buried macrocells in the larger devices)",
                1,
                vec![fixed(false)],
            ),
        );
        l.push_field(
            field(
                "xor_mode",
                "Controls the \"other\" (not from the OR term) input to the XOR gate",
                6,
                vec![at1(14, false), at1(15, false)],
            ),
        );
        l
    }
}

impl Crbit32 {
    /// Where each bit of each field of `l` lies in this layout.
    pub open spec fn placements(l: FragmentLayout) -> bool {
        &&& stored_at(l.fields@[0].bits@[0], seq![0isize, 0isize], false)
        &&& stored_at(l.fields@[0].bits@[1], seq![2isize, 0isize], false)
        &&& stored_at(l.fields@[0].bits@[2], seq![3isize, 0isize], false)
        &&& stored_at(l.fields@[1].bits@[0], seq![1isize, 0isize], false)
        &&& stored_at(l.fields@[2].bits@[0], seq![4isize, 0isize], false)
        &&& stored_at(l.fields@[3].bits@[0], seq![5isize, 0isize], false)
        &&& stored_at(l.fields@[3].bits@[1], seq![6isize, 0isize], false)
        &&& stored_at(l.fields@[4].bits@[0], seq![7isize, 0isize], false)
        &&& stored_at(l.fields@[4].bits@[1], seq![8isize, 0isize], false)
        &&& stored_at(l.fields@[5].bits@[0], seq![8isize, 2isize], true)
        &&& stored_at(l.fields@[6].bits@[0], seq![0isize, 1isize], false)
        &&& stored_at(l.fields@[6].bits@[1], seq![1isize, 1isize], false)
        &&& stored_at(l.fields@[7].bits@[0], seq![4isize, 1isize], false)
        &&& stored_at(l.fields@[7].bits@[1], seq![5isize, 1isize], false)
        &&& stored_at(l.fields@[8].bits@[0], seq![6isize, 1isize], true)
        &&& stored_at(l.fields@[9].bits@[0], seq![8isize, 1isize], false)
        &&& stored_at(l.fields@[9].bits@[1], seq![0isize, 2isize], false)
    }

    /// The macrocell layout of this tag.
    pub fn layout() -> (r: FragmentLayout)
        ensures
            is_macrocell_layout(r),
            r.dims == 2,
            Self::placements(r),
            macrocell_field_docs(r),
    {
        let mut l = macrocell_patterns(2);
        l.push_field(
            field(
                "clk_src",
                "Clock source for the register",
                0,
                vec![at2(0, 0, false), at2(2, 0, false), at2(3, 0, false)],
            ),
        );
        l.push_field(
            field(
                "clk_invert_pol",
                "Specifies the clock polarity for the register `false` = rising edge triggered flip-flop, transparent-when-high latch `true` = falling edge triggered flip-flop, transparent-when-low latch",
                1,
                vec![at2(1, 0, false)],
            ),
        );
        l.push_field(
            field(
                "is_ddr",
                "Specifies whether flip-flop are triggered on both clock edges It is currently unknown what happens when this is used on a transparent latch",
                1,
                vec![at2(4, 0, false)],
            ),
        );
        l.push_field(
            field(
                "r_src",
                "Reset source for the register",
                2,
                vec![at2(5, 0, false), at2(6, 0, false)],
            ),
        );
        l.push_field(
            field(
                "s_src",
                "Set source for the register",
                3,
                vec![at2(7, 0, false), at2(8, 0, false)],
            ),
        );
        l.push_field(
            field(
                "init_state",
                "Power-up state of the register `false` = init to 0, `true` = init to 1",
                1,
                vec![at2(8, 2, true)],
            ),
        );
        l.push_field(
            field(
                "reg_mode",
                "Register mode",
                4,
                vec![at2(0, 1, false), at2(1, 1, false)],
            ),
        );
        l.push_field(
            field(
                "fb_mode",
                "ZIA input mode for feedback from this macrocell",
                5,
                vec![at2(4, 1, false), at2(5, 1, false)],
            ),
        );
        l.push_field(
            field(
                "ff_in_ibuf",
                "Controls the input for the register `false` = use the output of the XOR gate (combinatorial path), `true` = use IOB direct path (`true` is illegal for buried macrocells in the larger devices)",
                1,
                vec![at2(6, 1, true)],
            ),
        );
        l.push_field(
            field(
                "xor_mode",
                "Controls the \"other\" (not from the OR term) input to the XOR gate",
                6,
                vec![at2(8, 1, false), at2(0, 2, false)],
            ),
        );
        l
    }
}

impl Crbit64 {
    /// Where each bit of each field of `l` lies in this layout.
    pub open spec fn placements(l: FragmentLayout) -> bool {
        &&& stored_at(l.fields@[0].bits@[0], seq![8isize, 0isize], false)
        &&& stored_at(l.fields@[0].bits@[1], seq![5isize, 0isize], false)
        &&& stored_at(l.fields@[0].bits@[2], seq![6isize, 0isize], false)
        &&& stored_at(l.fields@[1].bits@[0], seq![7isize, 0isize], false)
        &&& stored_at(l.fields@[2].bits@[0], seq![4isize, 0isize], false)
        &&& stored_at(l.fields@[3].bits@[0], seq![2isize, 0isize], false)
        &&& stored_at(l.fields@[3].bits@[1], seq![3isize, 0isize], false)
        &&& stored_at(l.fields@[4].bits@[0], seq![0isize, 0isize], false)
        &&& stored_at(l.fields@[4].bits@[1], seq![1isize, 0isize], false)
        &&& stored_at(l.fields@[5].bits@[0], seq![0isize, 2isize], true)
        &&& stored_at(l.fields@[6].bits@[0], seq![7isize, 1isize], false)
        &&& stored_at(l.fields@[6].bits@[1], seq![8isize, 1isize], false)
        &&& stored_at(l.fields@[7].bits@[0], seq![3isize, 1isize], false)
        &&& stored_at(l.fields@[7].bits@[1], seq![4isize, 1isize], false)
        &&& stored_at(l.fields@[8].bits@[0], seq![2isize, 1isize], true)
        &&& stored_at(l.fields@[9].bits@[0], seq![7isize, 2isize], false)
        &&& stored_at(l.fields@[9].bits@[1], seq![8isize, 2isize], false)
    }

    /// The macrocell layout of this tag.
    pub fn layout() -> (r: FragmentLayout)
        ensures
            is_macrocell_layout(r),
            r.dims == 2,
            Self::placements(r),
            macrocell_field_docs(r),
    {
        let mut l = macrocell_patterns(2);
        l.push_field(
            field(
                "clk_src",
                "Clock source for the register",
                0,
                vec![at2(8, 0, false), at2(5, 0, false), at2(6, 0, false)],
            ),
        );
        l.push_field(
            field(
                "clk_invert_pol",
                "Specifies the clock polarity for the register `false` = rising edge triggered flip-flop, transparent-when-high latch `true` = falling edge triggered flip-flop, transparent-when-low latch",
                1,
                vec![at2(7, 0, false)],
            ),
        );
        l.push_field(
            field(
                "is_ddr",
                "Specifies whether flip-flop are triggered on both clock edges It is currently unknown what happens when this is used on a transparent latch",
                1,
                vec![at2(4, 0, false)],
            ),
        );
        l.push_field(
            field(
                "r_src",
                "Reset source for the register",
                2,
                vec![at2(2, 0, false), at2(3, 0, false)],
            ),
        );
        l.push_field(
            field(
                "s_src",
                "Set source for the register",
                3,
                vec![at2(0, 0, false), at2(1, 0, false)],
            ),
        );
        l.push_field(
            field(
                "init_state",
                "Power-up state of the register `false` = init to 0, `true` = init to 1",
                1,
                vec![at2(0, 2, true)],
            ),
        );
        l.push_field(
            field(
                "reg_mode",
                "Register mode",
                4,
                vec![at2(7, 1, false), at2(8, 1, false)],
            ),
        );
        l.push_field(
            field(
                "fb_mode",
                "ZIA input mode for feedback from this macrocell",
                5,
                vec![at2(3, 1, false), at2(4, 1, false)],
            ),
        );
        l.push_field(
            field(
                "ff_in_ibuf",
                "Controls the input for the register `false` = use the output of the XOR gate (combinatorial path), `true` = use IOB direct path (`true` is illegal for buried macrocells in the larger devices)",
                1,
                vec![at2(2, 1, true)],
            ),
        );
        l.push_field(
            field(
                "xor_mode",
                "Controls the \"other\" (not from the OR term) input to the XOR gate",
                6,
                vec![at2(7, 2, false), at2(8, 2, false)],
            ),
        );
        l
    }
}

impl Crbit256 {
    /// Where each bit of each field of `l` lies in this layout.
    pub open spec fn placements(l: FragmentLayout) -> bool {
        &&& stored_at(l.fields@[0].bits@[0], seq![9isize, 0isize], false)
        &&& stored_at(l.fields@[0].bits@[1], seq![7isize, 0isize], false)
        &&& stored_at(l.fields@[0].bits@[2], seq![8isize, 0isize], false)
        &&& stored_at(l.fields@[1].bits@[0], seq![5isize, 0isize], false)
        &&& stored_at(l.fields@[2].bits@[0], seq![6isize, 0isize], false)
        &&& stored_at(l.fields@[3].bits@[0], seq![4isize, 2isize], false)
        &&& stored_at(l.fields@[3].bits@[1], seq![5isize, 2isize], false)
        &&& stored_at(l.fields@[4].bits@[0], seq![1isize, 1isize], false)
        &&& stored_at(l.fields@[4].bits@[1], seq![2isize, 1isize], false)
        &&& stored_at(l.fields@[5].bits@[0], seq![0isize, 1isize], true)
        &&& stored_at(l.fields@[6].bits@[0], seq![6isize, 2isize], false)
        &&& stored_at(l.fields@[6].bits@[1], seq![7isize, 2isize], false)
        &&& stored_at(l.fields@[7].bits@[0], seq![2isize, 0isize], false)
        &&& stored_at(l.fields@[7].bits@[1], seq![3isize, 0isize], false)
        &&& stored_at(l.fields@[8].bits@[0], seq![9isize, 1isize], true)
        &&& stored_at(l.fields@[9].bits@[0], seq![0isize, 2isize], false)
        &&& stored_at(l.fields@[9].bits@[1], seq![1isize, 2isize], false)
    }

    /// The macrocell layout of this tag.
    pub fn layout() -> (r: FragmentLayout)
        ensures
            is_macrocell_layout(r),
            r.dims == 2,
            Self::placements(r),
            macrocell_field_docs(r),
    {
        let mut l = macrocell_patterns(2);
        l.push_field(
            field(
                "clk_src",
                "Clock source for the register",
                0,
                vec![at2(9, 0, false), at2(7, 0, false), at2(8, 0, false)],
            ),
        );
        l.push_field(
            field(
                "clk_invert_pol",
                "Specifies the clock polarity for the register `false` = rising edge triggered flip-flop, transparent-when-high latch `true` = falling edge triggered flip-flop, transparent-when-low latch",
                1,
                vec![at2(5, 0, false)],
            ),
        );
        l.push_field(
            field(
                "is_ddr",
                "Specifies whether flip-flop are triggered on both clock edges It is currently unknown what happens when this is used on a transparent latch",
                1,
                vec![at2(6, 0, false)],
            ),
        );
        l.push_field(
            field(
                "r_src",
                "Reset source for the register",
                2,
                vec![at2(4, 2, false), at2(5, 2, false)],
            ),
        );
        l.push_field(
            field(
                "s_src",
                "Set source for the register",
                3,
                vec![at2(1, 1, false), at2(2, 1, false)],
            ),
        );
        l.push_field(
            field(
                "init_state",
                "Power-up state of the register `false` = init to 0, `true` = init to 1",
                1,
                vec![at2(0, 1, true)],
            ),
        );
        l.push_field(
            field(
                "reg_mode",
                "Register mode",
                4,
                vec![at2(6, 2, false), at2(7, 2, false)],
            ),
        );
        l.push_field(
            field(
                "fb_mode",
                "ZIA input mode for feedback from this macrocell",
                5,
                vec![at2(2, 0, false), at2(3, 0, false)],
            ),
        );
        l.push_field(
            field(
                "ff_in_ibuf",
                "Controls the input for the register `false` = use the output of the XOR gate (combinatorial path), `true` = use IOB direct path (`true` is illegal for buried macrocells in the larger devices)",
                1,
                vec![at2(9, 1, true)],
            ),
        );
        l.push_field(
            field(
                "xor_mode",
                "Controls the \"other\" (not from the OR term) input to the XOR gate",
                6,
                vec![at2(0, 2, false), at2(1, 2, false)],
            ),
        );
        l
    }
}

impl CrbitLarge {
    /// Where each bit of each field of `l` lies in this layout.
    pub open spec fn placements(l: FragmentLayout) -> bool {
        &&& stored_at(l.fields@[0].bits@[0], seq![8isize, 0isize], false)
        &&& stored_at(l.fields@[0].bits@[1], seq![9isize, 0isize], false)
        &&& stored_at(l.fields@[0].bits@[2], seq![10isize, 0isize], false)
        &&& stored_at(l.fields@[1].bits@[0], seq![12isize, 0isize], false)
        &&& stored_at(l.fields@[2].bits@[0], seq![11isize, 0isize], false)
        &&& stored_at(l.fields@[3].bits@[0], seq![11isize, 1isize], false)
        &&& stored_at(l.fields@[3].bits@[1], seq![12isize, 1isize], false)
        &&& stored_at(l.fields@[4].bits@[0], seq![13isize, 1isize], false)
        &&& stored_at(l.fields@[4].bits@[1], seq![14isize, 1isize], false)
        &&& stored_at(l.fields@[5].bits@[0], seq![14isize, 0isize], true)
        &&& stored_at(l.fields@[6].bits@[0], seq![9isize, 1isize], false)
        &&& stored_at(l.fields@[6].bits@[1], seq![10isize, 1isize], false)
        &&& stored_at(l.fields@[7].bits@[0], seq![2isize, 0isize], false)
        &&& stored_at(l.fields@[7].bits@[1], seq![3isize, 0isize], false)
        &&& stored_at(l.fields@[8].bits@[0], seq![13isize, 0isize], true)
        &&& stored_at(l.fields@[9].bits@[0], seq![0isize, 1isize], false)
        &&& stored_at(l.fields@[9].bits@[1], seq![1isize, 1isize], false)
    }

    /// The macrocell layout of this tag.
    pub fn layout() -> (r: FragmentLayout)
        ensures
            is_macrocell_layout(r),
            r.dims == 2,
            Self::placements(r),
            macrocell_field_docs(r),
    {
        let mut l = macrocell_patterns(2);
        l.push_field(
            field(
                "clk_src",
                "Clock source for the register",
                0,
                vec![at2(8, 0, false), at2(9, 0, false), at2(10, 0, false)],
            ),
        );
        l.push_field(
            field(
                "clk_invert_pol",
                "Specifies the clock polarity for the register `false` = rising edge triggered flip-flop, transparent-when-high latch `true` = falling edge triggered flip-flop, transparent-when-low latch",
                1,
                vec![at2(12, 0, false)],
            ),
        );
        l.push_field(
            field(
                "is_ddr",
                "Specifies whether flip-flop are triggered on both clock edges It is currently unknown what happens when this is used on a transparent latch",
                1,
                vec![at2(11, 0, false)],
            ),
        );
        l.push_field(
            field(
                "r_src",
                "Reset source for the register",
                2,
                vec![at2(11, 1, false), at2(12, 1, false)],
            ),
        );
        l.push_field(
            field(
                "s_src",
                "Set source for the register",
                3,
                vec![at2(13, 1, false), at2(14, 1, false)],
            ),
        );
        l.push_field(
            field(
                "init_state",
                "Power-up state of the register `false` = init to 0, `true` = init to 1",
                1,
                vec![at2(14, 0, true)],
            ),
        );
        l.push_field(
            field(
                "reg_mode",
                "Register mode",
                4,
                vec![at2(9, 1, false), at2(10, 1, false)],
            ),
        );
        l.push_field(
            field(
                "fb_mode",
                "ZIA input mode for feedback from this macrocell",
                5,
                vec![at2(2, 0, false), at2(3, 0, false)],
            ),
        );
        l.push_field(
            field(
                "ff_in_ibuf",
                "Controls the input for the register `false` = use the output of the XOR gate (combinatorial path), `true` = use IOB direct path (`true` is illegal for buried macrocells in the larger devices)",
                1,
                vec![at2(13, 0, true)],
            ),
        );
        l.push_field(
            field(
                "xor_mode",
                "Controls the \"other\" (not from the OR term) input to the XOR gate",
                6,
                vec![at2(0, 1, false), at2(1, 1, false)],
            ),
        );
        l
    }
}

impl JedLarge {
    /// The layout of a buried macrocell where `buried`, else that of a
    /// macrocell with an I/O pin.
    pub fn layout(buried: bool) -> (r: FragmentLayout)
        ensures
            is_macrocell_layout(r),
            r.dims == 1,
            macrocell_field_docs(r),
            buried ==> JedLargeBuried::placements(r),
            !buried ==> JedLargeUnburied::placements(r),
    {
        if buried {
            JedLargeBuried::layout()
        } else {
            JedLargeUnburied::layout()
        }
    }
}

/// Number of canonical bits of the pattern of macrocell field `k`.
pub open spec fn mc_bits_count(k: int) -> nat {
    if k == 0 {
        3
    } else if k == 1 || k == 2 || k == 5 || k == 8 {
        1
    } else {
        2
    }
}

/// Number of canonical bits of each field's pattern in a macrocell layout.
proof fn lemma_macrocell_bits_counts(l: FragmentLayout)
    requires
        is_macrocell_layout(l),
    ensures
        forall|k: int| 0 <= k < 10 ==> #[trigger] l.pattern_of(k).bits_count() == mc_bits_count(k),
{
    assert(<XC2MCRegClkSrc as BitPattern>::bits_count() == 3);
    assert(<bool as BitPattern>::bits_count() == 1);
    assert(<XC2MCRegResetSrc as BitPattern>::bits_count() == 2);
    assert(<XC2MCRegSetSrc as BitPattern>::bits_count() == 2);
    assert(<XC2MCRegMode as BitPattern>::bits_count() == 2);
    assert(<XC2MCFeedbackMode as BitPattern>::bits_count() == 2);
    assert(<XC2MCXorMode as BitPattern>::bits_count() == 2);
    assert forall|k: int| 0 <= k < 10 implies #[trigger] l.pattern_of(k).bits_count() == mc_bits_count(k) by {
        assert(l.fields@[k].pattern == mc_pattern(k));
    }
}

impl JedSmall {
    /// No two stored bits of this layout share a position.
    pub proof fn lemma_disjoint(l: FragmentLayout)
        requires
            is_macrocell_layout(l),
            Self::placements(l),
        ensures
            l.disjoint(),
    {
        lemma_macrocell_bits_counts(l);
        assert forall|j: int, q: int, k: int, p: int|
            0 <= j < l.fields@.len() && 0 <= k < l.fields@.len() && 0 <= q
                < l.fields@[j].bits@.len() && 0 <= p < l.fields@[k].bits@.len() && (j != k || q
                != p) && is_local(l.fields@[j].bits@[q]) && is_local(l.fields@[k].bits@[p])
                implies #[trigger] local_of(l.fields@[j].bits@[q]) != #[trigger] local_of(
                l.fields@[k].bits@[p],
            ) by {
            assert(l.fields@[j].wf(1, l.pattern_of(j)));
            assert(l.fields@[k].wf(1, l.pattern_of(k)));
            assert(0 <= j < 10 && 0 <= k < 10);
            assert(j == 0 || j == 1 || j == 2 || j == 3 || j == 4 || j == 5 || j == 6 || j == 7
                || j == 8 || j == 9);
            assert(k == 0 || k == 1 || k == 2 || k == 3 || k == 4 || k == 5 || k == 6 || k == 7
                || k == 8 || k == 9);
            assert(q == 0 || q == 1 || q == 2);
            assert(p == 0 || p == 1 || p == 2);
            assert(local_of(l.fields@[j].bits@[q])[0] != local_of(l.fields@[k].bits@[p])[0]);
        }
    }
}

impl JedLargeUnburied {
    /// No two stored bits of this layout share a position.
    pub proof fn lemma_disjoint(l: FragmentLayout)
        requires
            is_macrocell_layout(l),
            Self::placements(l),
        ensures
            l.disjoint(),
    {
        lemma_macrocell_bits_counts(l);
        assert forall|j: int, q: int, k: int, p: int|
            0 <= j < l.fields@.len() && 0 <= k < l.fields@.len() && 0 <= q
                < l.fields@[j].bits@.len() && 0 <= p < l.fields@[k].bits@.len() && (j != k || q
                != p) && is_local(l.fields@[j].bits@[q]) && is_local(l.fields@[k].bits@[p])
                implies #[trigger] local_of(l.fields@[j].bits@[q]) != #[trigger] local_of(
                l.fields@[k].bits@[p],
            ) by {
            assert(l.fields@[j].wf(1, l.pattern_of(j)));
            assert(l.fields@[k].wf(1, l.pattern_of(k)));
            assert(0 <= j < 10 && 0 <= k < 10);
            assert(j == 0 || j == 1 || j == 2 || j == 3 || j == 4 || j == 5 || j == 6 || j == 7
                || j == 8 || j == 9);
            assert(k == 0 || k == 1 || k == 2 || k == 3 || k == 4 || k == 5 || k == 6 || k == 7
                || k == 8 || k == 9);
            assert(q == 0 || q == 1 || q == 2);
            assert(p == 0 || p == 1 || p == 2);
            assert(local_of(l.fields@[j].bits@[q])[0] != local_of(l.fields@[k].bits@[p])[0]);
        }
    }
}

impl JedLargeBuried {
    /// No two stored bits of this layout share a position.
    pub proof fn lemma_disjoint(l: FragmentLayout)
        requires
            is_macrocell_layout(l),
            Self::placements(l),
        ensures
            l.disjoint(),
    {
        lemma_macrocell_bits_counts(l);
        assert forall|j: int, q: int, k: int, p: int|
            0 <= j < l.fields@.len() && 0 <= k < l.fields@.len() && 0 <= q
                < l.fields@[j].bits@.len() && 0 <= p < l.fields@[k].bits@.len() && (j != k || q
                != p) && is_local(l.fields@[j].bits@[q]) && is_local(l.fields@[k].bits@[p])
                implies #[trigger] local_of(l.fields@[j].bits@[q]) != #[trigger] local_of(
                l.fields@[k].bits@[p],
            ) by {
            assert(l.fields@[j].wf(1, l.pattern_of(j)));
            assert(l.fields@[k].wf(1, l.pattern_of(k)));
            assert(0 <= j < 10 && 0 <= k < 10);
            assert(j == 0 || j == 1 || j == 2 || j == 3 || j == 4 || j == 5 || j == 6 || j == 7
                || j == 8 || j == 9);
            assert(k == 0 || k == 1 || k == 2 || k == 3 || k == 4 || k == 5 || k == 6 || k == 7
                || k == 8 || k == 9);
            assert(q == 0 || q == 1 || q == 2);
            assert(p == 0 || p == 1 || p == 2);
            assert(local_of(l.fields@[j].bits@[q])[0] != local_of(l.fields@[k].bits@[p])[0]);
        }
    }
}

impl Crbit32 {
    /// No two stored bits of this layout share a position.
    pub proof fn lemma_disjoint(l: FragmentLayout)
        requires
            is_macrocell_layout(l),
            Self::placements(l),
        ensures
            l.disjoint(),
    {
        lemma_macrocell_bits_counts(l);
        assert forall|j: int, q: int, k: int, p: int|
            0 <= j < l.fields@.len() && 0 <= k < l.fields@.len() && 0 <= q
                < l.fields@[j].bits@.len() && 0 <= p < l.fields@[k].bits@.len() && (j != k || q
                != p) && is_local(l.fields@[j].bits@[q]) && is_local(l.fields@[k].bits@[p])
                implies #[trigger] local_of(l.fields@[j].bits@[q]) != #[trigger] local_of(
                l.fields@[k].bits@[p],
            ) by {
            assert(l.fields@[j].wf(2, l.pattern_of(j)));
            assert(l.fields@[k].wf(2, l.pattern_of(k)));
            assert(0 <= j < 10 && 0 <= k < 10);
            assert(j == 0 || j == 1 || j == 2 || j == 3 || j == 4 || j == 5 || j == 6 || j == 7
                || j == 8 || j == 9);
            assert(k == 0 || k == 1 || k == 2 || k == 3 || k == 4 || k == 5 || k == 6 || k == 7
                || k == 8 || k == 9);
            assert(q == 0 || q == 1 || q == 2);
            assert(p == 0 || p == 1 || p == 2);
            assert(local_of(l.fields@[j].bits@[q])[0] != local_of(l.fields@[k].bits@[p])[0]
                || local_of(l.fields@[j].bits@[q])[1] != local_of(l.fields@[k].bits@[p])[1]);
        }
    }
}

impl Crbit64 {
    /// No two stored bits of this layout share a position.
    pub proof fn lemma_disjoint(l: FragmentLayout)
        requires
            is_macrocell_layout(l),
            Self::placements(l),
        ensures
            l.disjoint(),
    {
        lemma_macrocell_bits_counts(l);
        assert forall|j: int, q: int, k: int, p: int|
            0 <= j < l.fields@.len() && 0 <= k < l.fields@.len() && 0 <= q
                < l.fields@[j].bits@.len() && 0 <= p < l.fields@[k].bits@.len() && (j != k || q
                != p) && is_local(l.fields@[j].bits@[q]) && is_local(l.fields@[k].bits@[p])
                implies #[trigger] local_of(l.fields@[j].bits@[q]) != #[trigger] local_of(
                l.fields@[k].bits@[p],
            ) by {
            assert(l.fields@[j].wf(2, l.pattern_of(j)));
            assert(l.fields@[k].wf(2, l.pattern_of(k)));
            assert(0 <= j < 10 && 0 <= k < 10);
            assert(j == 0 || j == 1 || j == 2 || j == 3 || j == 4 || j == 5 || j == 6 || j == 7
                || j == 8 || j == 9);
            assert(k == 0 || k == 1 || k == 2 || k == 3 || k == 4 || k == 5 || k == 6 || k == 7
                || k == 8 || k == 9);
            assert(q == 0 || q == 1 || q == 2);
            assert(p == 0 || p == 1 || p == 2);
            assert(local_of(l.fields@[j].bits@[q])[0] != local_of(l.fields@[k].bits@[p])[0]
                || local_of(l.fields@[j].bits@[q])[1] != local_of(l.fields@[k].bits@[p])[1]);
        }
    }
}

impl Crbit256 {
    /// No two stored bits of this layout share a position.
    pub proof fn lemma_disjoint(l: FragmentLayout)
        requires
            is_macrocell_layout(l),
            Self::placements(l),
        ensures
            l.disjoint(),
    {
        lemma_macrocell_bits_counts(l);
        assert forall|j: int, q: int, k: int, p: int|
            0 <= j < l.fields@.len() && 0 <= k < l.fields@.len() && 0 <= q
                < l.fields@[j].bits@.len() && 0 <= p < l.fields@[k].bits@.len() && (j != k || q
                != p) && is_local(l.fields@[j].bits@[q]) && is_local(l.fields@[k].bits@[p])
                implies #[trigger] local_of(l.fields@[j].bits@[q]) != #[trigger] local_of(
                l.fields@[k].bits@[p],
            ) by {
            assert(l.fields@[j].wf(2, l.pattern_of(j)));
            assert(l.fields@[k].wf(2, l.pattern_of(k)));
            assert(0 <= j < 10 && 0 <= k < 10);
            assert(j == 0 || j == 1 || j == 2 || j == 3 || j == 4 || j == 5 || j == 6 || j == 7
                || j == 8 || j == 9);
            assert(k == 0 || k == 1 || k == 2 || k == 3 || k == 4 || k == 5 || k == 6 || k == 7
                || k == 8 || k == 9);
            assert(q == 0 || q == 1 || q == 2);
            assert(p == 0 || p == 1 || p == 2);
            assert(local_of(l.fields@[j].bits@[q])[0] != local_of(l.fields@[k].bits@[p])[0]
                || local_of(l.fields@[j].bits@[q])[1] != local_of(l.fields@[k].bits@[p])[1]);
        }
    }
}

impl CrbitLarge {
    /// No two stored bits of this layout share a position.
    pub proof fn lemma_disjoint(l: FragmentLayout)
        requires
            is_macrocell_layout(l),
            Self::placements(l),
        ensures
            l.disjoint(),
    {
        lemma_macrocell_bits_counts(l);
        assert forall|j: int, q: int, k: int, p: int|
            0 <= j < l.fields@.len() && 0 <= k < l.fields@.len() && 0 <= q
                < l.fields@[j].bits@.len() && 0 <= p < l.fields@[k].bits@.len() && (j != k || q
                != p) && is_local(l.fields@[j].bits@[q]) && is_local(l.fields@[k].bits@[p])
                implies #[trigger] local_of(l.fields@[j].bits@[q]) != #[trigger] local_of(
                l.fields@[k].bits@[p],
            ) by {
            assert(l.fields@[j].wf(2, l.pattern_of(j)));
            assert(l.fields@[k].wf(2, l.pattern_of(k)));
            assert(0 <= j < 10 && 0 <= k < 10);
            assert(j == 0 || j == 1 || j == 2 || j == 3 || j == 4 || j == 5 || j == 6 || j == 7
                || j == 8 || j == 9);
            assert(k == 0 || k == 1 || k == 2 || k == 3 || k == 4 || k == 5 || k == 6 || k == 7
                || k == 8 || k == 9);
            assert(q == 0 || q == 1 || q == 2);
            assert(p == 0 || p == 1 || p == 2);
            assert(local_of(l.fields@[j].bits@[q])[0] != local_of(l.fields@[k].bits@[p])[0]
                || local_of(l.fields@[j].bits@[q])[1] != local_of(l.fields@[k].bits@[p])[1]);
        }
    }
}

/// Number of variants of each macrocell pattern.
proof fn lemma_variant_counts()
    ensures
        <XC2MCRegClkSrc as BitPattern>::variant_count() == 5,
        <bool as BitPattern>::variant_count() == 2,
        <XC2MCRegResetSrc as BitPattern>::variant_count() == 4,
        <XC2MCRegSetSrc as BitPattern>::variant_count() == 4,
        <XC2MCRegMode as BitPattern>::variant_count() == 4,
        <XC2MCFeedbackMode as BitPattern>::variant_count() == 3,
        <XC2MCXorMode as BitPattern>::variant_count() == 4,
{
}

/// Number of variants of the pattern of macrocell field `k`.
pub open spec fn mc_variant_count(k: int) -> nat {
    if k == 0 {
        5
    } else if k == 3 || k == 4 || k == 6 || k == 9 {
        4
    } else if k == 7 {
        3
    } else {
        2
    }
}

impl XC2Macrocell {
    /// One variant index per field, in declaration order.
    pub open spec fn values_spec(&self) -> Seq<usize> {
        seq![
            self.clk_src.variant_of() as usize,
            self.clk_invert_pol.variant_of() as usize,
            self.is_ddr.variant_of() as usize,
            self.r_src.variant_of() as usize,
            self.s_src.variant_of() as usize,
            self.init_state.variant_of() as usize,
            self.reg_mode.variant_of() as usize,
            self.fb_mode.variant_of() as usize,
            self.ff_in_ibuf.variant_of() as usize,
            self.xor_mode.variant_of() as usize,
        ]
    }

    /// The variant indices of a macrocell are in range for a macrocell layout.
    pub proof fn lemma_values_ok(&self, l: FragmentLayout)
        requires
            is_macrocell_layout(l),
        ensures
            l.values_ok(self.values_spec()),
    {
        lemma_variant_counts();
        assert forall|k: int| 0 <= k < 10 implies #[trigger] self.values_spec()[k]
            < l.pattern_of(k).variant_count() by {
            assert(l.fields@[k].pattern == mc_pattern(k));
        }
    }

    /// One variant index per field, in declaration order.
    pub fn to_values(&self) -> (r: Vec<usize>)
        ensures
            r@ == self.values_spec(),
    {
        let mut v: Vec<usize> = Vec::new();
        v.push(self.clk_src.variant_index());
        v.push(self.clk_invert_pol.variant_index());
        v.push(self.is_ddr.variant_index());
        v.push(self.r_src.variant_index());
        v.push(self.s_src.variant_index());
        v.push(self.init_state.variant_index());
        v.push(self.reg_mode.variant_index());
        v.push(self.fb_mode.variant_index());
        v.push(self.ff_in_ibuf.variant_index());
        v.push(self.xor_mode.variant_index());
        assert(v@ =~= self.values_spec());
        v
    }

    /// The macrocell whose fields have the given variant indices.
    pub fn from_values(v: &[usize]) -> (r: XC2Macrocell)
        requires
            v@.len() == 10,
            forall|k: int| 0 <= k < 10 ==> #[trigger] v@[k] < mc_variant_count(k),
        ensures
            r.values_spec() == v@,
    {
        proof {
            lemma_variant_counts();
        }
        assert(v@[0] < 5 && v@[1] < 2 && v@[2] < 2 && v@[3] < 4 && v@[4] < 4);
        assert(v@[5] < 2 && v@[6] < 4 && v@[7] < 3 && v@[8] < 2 && v@[9] < 4);
        let r = XC2Macrocell {
            clk_src: XC2MCRegClkSrc::from_variant_index(v[0]),
            clk_invert_pol: bool::from_variant_index(v[1]),
            is_ddr: bool::from_variant_index(v[2]),
            r_src: XC2MCRegResetSrc::from_variant_index(v[3]),
            s_src: XC2MCRegSetSrc::from_variant_index(v[4]),
            init_state: bool::from_variant_index(v[5]),
            reg_mode: XC2MCRegMode::from_variant_index(v[6]),
            fb_mode: XC2MCFeedbackMode::from_variant_index(v[7]),
            ff_in_ibuf: bool::from_variant_index(v[8]),
            xor_mode: XC2MCXorMode::from_variant_index(v[9]),
        };
        assert(r.values_spec() =~= v@);
        r
    }

    /// Encodes this macrocell with a macrocell layout, fields in
    /// declaration order. Where some stored bit lies outside the grid,
    /// nothing is written and `OutOfRange` is returned.
    pub fn encode(&self, layout: &FragmentLayout, grid: &mut Grid, offset: &[usize], mirror: &[bool]) -> (r:
        Result<(), CodecError>)
        requires
            is_macrocell_layout(*layout),
            old(grid).wf(),
            offset@.len() == layout.dims,
            mirror@.len() == layout.dims,
        ensures
            final(grid).wf(),
            final(grid).shape == old(grid).shape,
            r is Ok <==> layout.coords_ok(old(grid).shape@, offset@, mirror@),
            r is Ok ==> final(grid).cells@ == layout.encode_spec(
                old(grid).shape@,
                old(grid).cells@,
                self.values_spec(),
                offset@,
                mirror@,
            ),
            r is Err ==> r == Err::<(), CodecError>(CodecError::OutOfRange) && final(grid).cells@
                == old(grid).cells@,
    {
        let values = self.to_values();
        proof {
            self.lemma_values_ok(*layout);
        }
        layout.encode(values.as_slice(), grid, offset, mirror)
    }

    /// Decodes a macrocell with a macrocell layout, fields in declaration
    /// order; the first field that fails aborts the decode with its error.
    pub fn decode(layout: &FragmentLayout, grid: &Grid, offset: &[usize], mirror: &[bool]) -> (r: Result<
        XC2Macrocell,
        CodecError,
    >)
        requires
            is_macrocell_layout(*layout),
            grid.wf(),
            offset@.len() == layout.dims,
            mirror@.len() == layout.dims,
        ensures
            match r {
                Ok(m) => forall|k: int|
                    0 <= k < 10 ==> #[trigger] layout.field_result(
                        grid.shape@,
                        grid.cells@,
                        offset@,
                        mirror@,
                        k,
                    ) == Ok::<int, CodecError>(m.values_spec()[k] as int),
                Err(e) => exists|k: int|
                    0 <= k < 10 && #[trigger] layout.field_result(
                        grid.shape@,
                        grid.cells@,
                        offset@,
                        mirror@,
                        k,
                    ) == Err::<int, CodecError>(e) && forall|j: int|
                        0 <= j < k ==> (#[trigger] layout.field_result(
                            grid.shape@,
                            grid.cells@,
                            offset@,
                            mirror@,
                            j,
                        )) is Ok,
            },
    {
        match layout.decode(grid, offset, mirror) {
            Ok(vals) => {
                proof {
                    lemma_variant_counts();
                    assert forall|k: int| 0 <= k < 10 implies #[trigger] vals@[k] < mc_variant_count(k) by {
                        let f = layout.fields@[k];
                        let pat = layout.pattern_of(k);
                        assert(layout.field_result(grid.shape@, grid.cells@, offset@, mirror@, k)
                            == Ok::<int, CodecError>(vals@[k] as int));
                        pat.lemma_decode_in_range(f.read_buffer(grid.shape@, grid.cells@, offset@, mirror@));
                        assert(f.pattern == mc_pattern(k));
                    }
                }
                Ok(XC2Macrocell::from_values(vals.as_slice()))
            },
            Err(e) => Err(e),
        }
    }

    /// The macrocell's settings as text, one setting per line.
    pub fn to_display_string(&self) -> (r: String)
        ensures
            r@ == self.display_spec(),
    {
        let mut s = String::new();
        s.append("FF mode: ");
        s.append(reg_mode_str(self.reg_mode));
        s.append("\n");
        s.append("initial state: ");
        s.append(if self.init_state { "1" } else { "0" });
        s.append("\n");
        s.append(if self.clk_invert_pol { "falling" } else { "rising" });
        s.append("-edge triggered\n");
        s.append("DDR: ");
        s.append(yes_no_str(self.is_ddr));
        s.append("\n");
        s.append("clock source: ");
        s.append(clk_src_str(self.clk_src));
        s.append("\n");
        s.append("set source: ");
        s.append(set_src_str(self.s_src));
        s.append("\n");
        s.append("reset source: ");
        s.append(reset_src_str(self.r_src));
        s.append("\n");
        s.append("using ibuf direct path: ");
        s.append(yes_no_str(self.ff_in_ibuf));
        s.append("\n");
        s.append("XOR gate input: ");
        s.append(xor_mode_str(self.xor_mode));
        s.append("\n");
        s.append("ZIA feedback: ");
        s.append(fb_mode_str(self.fb_mode));
        s.append("\n");
        s
    }

    /// The text `to_display_string` returns.
    pub open spec fn display_spec(&self) -> Seq<char> {
        "FF mode: "@ + reg_mode_text(self.reg_mode) + "\n"@ + "initial state: "@ + (if self.init_state {
            "1"@
        } else {
            "0"@
        }) + "\n"@ + (if self.clk_invert_pol {
            "falling"@
        } else {
            "rising"@
        }) + "-edge triggered\n"@ + "DDR: "@ + yes_no_text(self.is_ddr) + "\n"@ + "clock source: "@
            + clk_src_text(self.clk_src) + "\n"@ + "set source: "@ + set_src_text(self.s_src) + "\n"@
            + "reset source: "@ + reset_src_text(self.r_src) + "\n"@ + "using ibuf direct path: "@
            + yes_no_text(self.ff_in_ibuf) + "\n"@ + "XOR gate input: "@ + xor_mode_text(self.xor_mode)
            + "\n"@ + "ZIA feedback: "@ + fb_mode_text(self.fb_mode) + "\n"@
    }
}

/// Text of a register mode.
pub open spec fn reg_mode_text(m: XC2MCRegMode) -> Seq<char> {
    match m {
        XC2MCRegMode::DFF => "D flip-flop"@,
        XC2MCRegMode::LATCH => "transparent latch"@,
        XC2MCRegMode::TFF => "T flip-flop"@,
        XC2MCRegMode::DFFCE => "D flip-flop with clock-enable"@,
    }
}

/// Text of a register mode.
fn reg_mode_str(m: XC2MCRegMode) -> (r: &'static str)
    ensures
        r@ == reg_mode_text(m),
{
    match m {
        XC2MCRegMode::DFF => "D flip-flop",
        XC2MCRegMode::LATCH => "transparent latch",
        XC2MCRegMode::TFF => "T flip-flop",
        XC2MCRegMode::DFFCE => "D flip-flop with clock-enable",
    }
}

/// Text of a clock source.
pub open spec fn clk_src_text(m: XC2MCRegClkSrc) -> Seq<char> {
    match m {
        XC2MCRegClkSrc::GCK0 => "GCK0"@,
        XC2MCRegClkSrc::GCK1 => "GCK1"@,
        XC2MCRegClkSrc::GCK2 => "GCK2"@,
        XC2MCRegClkSrc::PTC => "PTC"@,
        XC2MCRegClkSrc::CTC => "CTC"@,
    }
}

/// Text of a clock source.
fn clk_src_str(m: XC2MCRegClkSrc) -> (r: &'static str)
    ensures
        r@ == clk_src_text(m),
{
    match m {
        XC2MCRegClkSrc::GCK0 => "GCK0",
        XC2MCRegClkSrc::GCK1 => "GCK1",
        XC2MCRegClkSrc::GCK2 => "GCK2",
        XC2MCRegClkSrc::PTC => "PTC",
        XC2MCRegClkSrc::CTC => "CTC",
    }
}

/// Text of a set source.
pub open spec fn set_src_text(m: XC2MCRegSetSrc) -> Seq<char> {
    match m {
        XC2MCRegSetSrc::Disabled => "disabled"@,
        XC2MCRegSetSrc::PTA => "PTA"@,
        XC2MCRegSetSrc::GSR => "GSR"@,
        XC2MCRegSetSrc::CTS => "CTS"@,
    }
}

/// Text of a set source.
fn set_src_str(m: XC2MCRegSetSrc) -> (r: &'static str)
    ensures
        r@ == set_src_text(m),
{
    match m {
        XC2MCRegSetSrc::Disabled => "disabled",
        XC2MCRegSetSrc::PTA => "PTA",
        XC2MCRegSetSrc::GSR => "GSR",
        XC2MCRegSetSrc::CTS => "CTS",
    }
}

/// Text of a reset source.
pub open spec fn reset_src_text(m: XC2MCRegResetSrc) -> Seq<char> {
    match m {
        XC2MCRegResetSrc::Disabled => "disabled"@,
        XC2MCRegResetSrc::PTA => "PTA"@,
        XC2MCRegResetSrc::GSR => "GSR"@,
        XC2MCRegResetSrc::CTR => "CTR"@,
    }
}

/// Text of a reset source.
fn reset_src_str(m: XC2MCRegResetSrc) -> (r: &'static str)
    ensures
        r@ == reset_src_text(m),
{
    match m {
        XC2MCRegResetSrc::Disabled => "disabled",
        XC2MCRegResetSrc::PTA => "PTA",
        XC2MCRegResetSrc::GSR => "GSR",
        XC2MCRegResetSrc::CTR => "CTR",
    }
}

/// Text of a XOR gate input.
pub open spec fn xor_mode_text(m: XC2MCXorMode) -> Seq<char> {
    match m {
        XC2MCXorMode::ZERO => "0"@,
        XC2MCXorMode::ONE => "1"@,
        XC2MCXorMode::PTC => "PTC"@,
        XC2MCXorMode::PTCB => "~PTC"@,
    }
}

/// Text of a XOR gate input.
fn xor_mode_str(m: XC2MCXorMode) -> (r: &'static str)
    ensures
        r@ == xor_mode_text(m),
{
    match m {
        XC2MCXorMode::ZERO => "0",
        XC2MCXorMode::ONE => "1",
        XC2MCXorMode::PTC => "PTC",
        XC2MCXorMode::PTCB => "~PTC",
    }
}

/// Text of a feedback mode.
pub open spec fn fb_mode_text(m: XC2MCFeedbackMode) -> Seq<char> {
    match m {
        XC2MCFeedbackMode::Disabled => "disabled"@,
        XC2MCFeedbackMode::COMB => "combinatorial"@,
        XC2MCFeedbackMode::REG => "registered"@,
    }
}

/// Text of a feedback mode.
fn fb_mode_str(m: XC2MCFeedbackMode) -> (r: &'static str)
    ensures
        r@ == fb_mode_text(m),
{
    match m {
        XC2MCFeedbackMode::Disabled => "disabled",
        XC2MCFeedbackMode::COMB => "combinatorial",
        XC2MCFeedbackMode::REG => "registered",
    }
}

/// `yes` or `no`.
pub open spec fn yes_no_text(b: bool) -> Seq<char> {
    if b {
        "yes"@
    } else {
        "no"@
    }
}

/// `yes` or `no`.
fn yes_no_str(b: bool) -> (r: &'static str)
    ensures
        r@ == yes_no_text(b),
{
    if b {
        "yes"
    } else {
        "no"
    }
}

impl Default for XC2Macrocell {
    /// A macrocell with the register as a D flip-flop clocked by GCK0 on
    /// the rising edge, no set or reset, powering up to 1, feedback
    /// disabled, input from the XOR gate, and the XOR gate passing the OR
    /// term through.
    fn default() -> (r: Self)
        ensures
            r == (XC2Macrocell {
                clk_src: XC2MCRegClkSrc::GCK0,
                clk_invert_pol: false,
                is_ddr: false,
                r_src: XC2MCRegResetSrc::Disabled,
                s_src: XC2MCRegSetSrc::Disabled,
                init_state: true,
                reg_mode: XC2MCRegMode::DFF,
                fb_mode: XC2MCFeedbackMode::Disabled,
                ff_in_ibuf: false,
                xor_mode: XC2MCXorMode::ZERO,
            }),
    {
        XC2Macrocell {
            clk_src: XC2MCRegClkSrc::GCK0,
            clk_invert_pol: false,
            is_ddr: false,
            r_src: XC2MCRegResetSrc::Disabled,
            s_src: XC2MCRegSetSrc::Disabled,
            init_state: true,
            reg_mode: XC2MCRegMode::DFF,
            fb_mode: XC2MCFeedbackMode::Disabled,
            ff_in_ibuf: false,
            xor_mode: XC2MCXorMode::ZERO,
        }
    }
}

/// `l` is one of the family's macrocell layouts; a buried macrocell of the
/// large devices does not store `ff_in_ibuf`, so `m` must have it `false`
/// there to come back unchanged.
pub open spec fn family_layout_for(l: FragmentLayout, m: XC2Macrocell) -> bool {
    ||| JedSmall::placements(l)
    ||| JedLargeUnburied::placements(l)
    ||| JedLargeBuried::placements(l) && !m.ff_in_ibuf
    ||| Crbit32::placements(l)
    ||| Crbit64::placements(l)
    ||| Crbit256::placements(l)
    ||| CrbitLarge::placements(l)
}

impl XC2Macrocell {
    /// Encoding a macrocell with one of the family's layouts and decoding
    /// from the same offset and mirroring gives every setting back, when
    /// every stored bit lands inside the grid; by `lemma_decoded_is_self`
    /// the macrocell decoded is then this one.
    pub proof fn lemma_round_trip(
        &self,
        l: FragmentLayout,
        shape: Seq<usize>,
        cells: Seq<bool>,
        offset: Seq<usize>,
        mirror: Seq<bool>,
    )
        requires
            is_macrocell_layout(l),
            family_layout_for(l, *self),
            cells.len() == cell_count(shape),
            offset.len() == l.dims,
            mirror.len() == l.dims,
            l.coords_ok(shape, offset, mirror),
        ensures
            forall|k: int|
                0 <= k < 10 ==> #[trigger] l.field_result(
                    shape,
                    l.encode_spec(shape, cells, self.values_spec(), offset, mirror),
                    offset,
                    mirror,
                    k,
                ) == Ok::<int, CodecError>(self.values_spec()[k] as int),
    {
        if JedSmall::placements(l) {
            JedSmall::lemma_disjoint(l);
        } else if JedLargeUnburied::placements(l) {
            JedLargeUnburied::lemma_disjoint(l);
        } else if JedLargeBuried::placements(l) {
            JedLargeBuried::lemma_disjoint(l);
        } else if Crbit32::placements(l) {
            Crbit32::lemma_disjoint(l);
        } else if Crbit64::placements(l) {
            Crbit64::lemma_disjoint(l);
        } else if Crbit256::placements(l) {
            Crbit256::lemma_disjoint(l);
        } else {
            CrbitLarge::lemma_disjoint(l);
        }
        self.lemma_values_ok(l);
        lemma_macrocell_bits_counts(l);
        lemma_clk_src_unshadowed();
        lemma_bool_unshadowed();
        lemma_reset_src_unshadowed();
        lemma_set_src_unshadowed();
        lemma_reg_mode_unshadowed();
        lemma_feedback_mode_unshadowed();
        lemma_xor_mode_unshadowed();
        let values = self.values_spec();
        assert forall|k: int| 0 <= k < values.len() implies #[trigger] l.fields@[k].recovers(
            l.pattern_of(k),
            values[k] as int,
        ) by {
            let f = l.fields@[k];
            let pat = l.pattern_of(k);
            let v = values[k] as int;
            assert(f.wf(l.dims as nat, pat));
            assert(f.pattern == mc_pattern(k));
            assert(0 <= v < pat.variant_count());
            if k == 0 {
                lemma_describes_shadowed::<XC2MCRegClkSrc>(pat, v);
            } else if k == 1 || k == 2 || k == 5 || k == 8 {
                lemma_describes_shadowed::<bool>(pat, v);
            } else if k == 3 {
                lemma_describes_shadowed::<XC2MCRegResetSrc>(pat, v);
            } else if k == 4 {
                lemma_describes_shadowed::<XC2MCRegSetSrc>(pat, v);
            } else if k == 6 {
                lemma_describes_shadowed::<XC2MCRegMode>(pat, v);
            } else if k == 7 {
                lemma_describes_shadowed::<XC2MCFeedbackMode>(pat, v);
            } else {
                lemma_describes_shadowed::<XC2MCXorMode>(pat, v);
            }
            assert forall|p: int|
                0 <= p < f.bits@.len() && !is_local(#[trigger] f.bits@[p]) implies (fixed_of(f.bits@[p])
                != f.bits@[p].invert) == encode_bits(pat.bits_of(v))[p] by {
                assert(p == 0 || p == 1 || p == 2);
                assert(k == 8 && JedLargeBuried::placements(l));
                assert(<bool as BitPattern>::variant_bits(0) == seq![PatBit::Zero]);
                assert(pat.bits_of(0) == <bool as BitPattern>::variant_bits(0));
                assert(v == 0);
            }
            f.lemma_recovers(pat, v);
        }
        l.lemma_round_trip(shape, cells, values, offset, mirror);
    }

    /// Where every field of `cells` decodes to this macrocell's variant, a
    /// macrocell that decodes from them is this one.
    pub proof fn lemma_decoded_is_self(
        &self,
        m: XC2Macrocell,
        l: FragmentLayout,
        shape: Seq<usize>,
        cells: Seq<bool>,
        offset: Seq<usize>,
        mirror: Seq<bool>,
    )
        requires
            forall|k: int|
                0 <= k < 10 ==> #[trigger] l.field_result(shape, cells, offset, mirror, k) == Ok::<
                    int,
                    CodecError,
                >(self.values_spec()[k] as int),
            forall|k: int|
                0 <= k < 10 ==> #[trigger] l.field_result(shape, cells, offset, mirror, k) == Ok::<
                    int,
                    CodecError,
                >(m.values_spec()[k] as int),
        ensures
            m == *self,
    {
        assert forall|k: int| 0 <= k < 10 implies m.values_spec()[k] == self.values_spec()[k] by {
            assert(l.field_result(shape, cells, offset, mirror, k) == Ok::<int, CodecError>(
                self.values_spec()[k] as int,
            ));
        }
        assert(m.values_spec() =~= self.values_spec());
        m.lemma_values_injective(*self);
    }

    /// Macrocells with the same variant in every field are equal.
    pub proof fn lemma_values_injective(&self, other: XC2Macrocell)
        requires
            self.values_spec() == other.values_spec(),
        ensures
            *self == other,
    {
        assert(self.values_spec()[0] == other.values_spec()[0]);
        assert(self.values_spec()[1] == other.values_spec()[1]);
        assert(self.values_spec()[2] == other.values_spec()[2]);
        assert(self.values_spec()[3] == other.values_spec()[3]);
        assert(self.values_spec()[4] == other.values_spec()[4]);
        assert(self.values_spec()[5] == other.values_spec()[5]);
        assert(self.values_spec()[6] == other.values_spec()[6]);
        assert(self.values_spec()[7] == other.values_spec()[7]);
        assert(self.values_spec()[8] == other.values_spec()[8]);
        assert(self.values_spec()[9] == other.values_spec()[9]);
        XC2MCRegClkSrc::lemma_variant_of_injective(self.clk_src, other.clk_src);
        bool::lemma_variant_of_injective(self.clk_invert_pol, other.clk_invert_pol);
        bool::lemma_variant_of_injective(self.is_ddr, other.is_ddr);
        XC2MCRegResetSrc::lemma_variant_of_injective(self.r_src, other.r_src);
        XC2MCRegSetSrc::lemma_variant_of_injective(self.s_src, other.s_src);
        bool::lemma_variant_of_injective(self.init_state, other.init_state);
        XC2MCRegMode::lemma_variant_of_injective(self.reg_mode, other.reg_mode);
        XC2MCFeedbackMode::lemma_variant_of_injective(self.fb_mode, other.fb_mode);
        bool::lemma_variant_of_injective(self.ff_in_ibuf, other.ff_in_ibuf);
        XC2MCXorMode::lemma_variant_of_injective(self.xor_mode, other.xor_mode);
    }
}

impl XC2Macrocell {
    /// The buried layout does not store `ff_in_ibuf`: a macrocell decoded
    /// with it has `ff_in_ibuf` false.
    pub proof fn lemma_buried_ibuf_reads_false(
        &self,
        l: FragmentLayout,
        shape: Seq<usize>,
        cells: Seq<bool>,
        offset: Seq<usize>,
        mirror: Seq<bool>,
    )
        requires
            is_macrocell_layout(l),
            JedLargeBuried::placements(l),
            l.field_result(shape, cells, offset, mirror, 8) == Ok::<int, CodecError>(
                self.values_spec()[8] as int,
            ),
        ensures
            !self.ff_in_ibuf,
    {
        let f = l.fields@[8];
        let pat = l.pattern_of(8);
        lemma_macrocell_bits_counts(l);
        assert(f.pattern == mc_pattern(8));
        assert(describes::<bool>(pat));
        assert(f.wf(l.dims as nat, pat));
        let buf = f.read_buffer(shape, cells, offset, mirror);
        assert(buf =~= seq![false]);
        assert(<bool as BitPattern>::variant_bits(0) == seq![PatBit::Zero]);
        assert(pat.bits_of(0) == <bool as BitPattern>::variant_bits(0));
        assert(pat.is_first_match(buf, 0));
        pat.lemma_first_match_unique(buf, 0);
    }
}

} // verus!
