use bittwiddler::bitpattern::BitPattern;
use bittwiddler::coord::{resolve, resolve_dim};
use bittwiddler::error::{CodecError, SchemaError};
use bittwiddler::fragment::{BitPlacement, BitPos, FieldKind, FragmentLayout};
use bittwiddler::grid::Grid;
use bittwiddler::layout::{place_bit, resolve_bits, NamedBit};
use bittwiddler::mc::{
    Crbit256, Crbit32, Crbit64, CrbitLarge, JedLarge, JedLargeBuried, JedSmall, XC2MCFeedbackMode,
    XC2MCRegClkSrc, XC2MCRegMode, XC2MCRegResetSrc, XC2MCRegSetSrc, XC2MCXorMode, XC2Macrocell,
};
use bittwiddler::pattern::{PatBit, PatternSchema, PatternVariant};

fn two_bit_pattern() -> PatternSchema {
    PatternSchema::new(
        vec!["0".to_string(), "1".to_string()],
        vec![
            PatternVariant::new("A", "", vec![PatBit::Zero, PatBit::Zero]),
            PatternVariant::new("B", "", vec![PatBit::Zero, PatBit::One]),
            PatternVariant::new("C", "", vec![PatBit::One, PatBit::Zero]),
            PatternVariant::new("D", "", vec![PatBit::One, PatBit::One]),
        ],
    )
    .unwrap()
}

fn local(name: &str, pos: Vec<isize>, invert: bool) -> NamedBit {
    NamedBit { name: name.to_string(), placement: BitPlacement { pos: BitPos::Local(pos), invert } }
}

fn round_trip<T: BitPattern + PartialEq + std::fmt::Debug + Copy>(x: T)
where
    T::EncodeExtraType: Default,
    T::DecodeExtraType: Default,
{
    let bits = x.encode(Default::default());
    assert_eq!(T::decode(&bits, Default::default()).unwrap(), x);
}

#[test]
fn pattern_round_trip_every_variant() {
    round_trip(false);
    round_trip(true);
    for x in [
        XC2MCRegClkSrc::GCK0,
        XC2MCRegClkSrc::GCK1,
        XC2MCRegClkSrc::GCK2,
        XC2MCRegClkSrc::PTC,
        XC2MCRegClkSrc::CTC,
    ] {
        round_trip(x);
    }
    for x in [XC2MCRegResetSrc::Disabled, XC2MCRegResetSrc::PTA, XC2MCRegResetSrc::GSR, XC2MCRegResetSrc::CTR] {
        round_trip(x);
    }
    for x in [XC2MCRegSetSrc::Disabled, XC2MCRegSetSrc::PTA, XC2MCRegSetSrc::GSR, XC2MCRegSetSrc::CTS] {
        round_trip(x);
    }
    for x in [XC2MCRegMode::DFF, XC2MCRegMode::LATCH, XC2MCRegMode::TFF, XC2MCRegMode::DFFCE] {
        round_trip(x);
    }
    for x in [XC2MCFeedbackMode::Disabled, XC2MCFeedbackMode::COMB, XC2MCFeedbackMode::REG] {
        round_trip(x);
    }
    for x in [XC2MCXorMode::ZERO, XC2MCXorMode::ONE, XC2MCXorMode::PTC, XC2MCXorMode::PTCB] {
        round_trip(x);
    }
}

#[test]
fn wildcard_encodes_as_zero_and_matches_either() {
    assert_eq!(XC2MCRegClkSrc::GCK1.encode(()), [false, true, false]);
    assert_eq!(XC2MCFeedbackMode::Disabled.encode(()), [false, true]);
    assert_eq!(XC2MCFeedbackMode::decode(&[true, true], ()).unwrap(), XC2MCFeedbackMode::Disabled);
    assert_eq!(XC2MCRegClkSrc::decode(&[true, false, true], ()).unwrap(), XC2MCRegClkSrc::GCK2);
}

#[test]
fn decode_tie_break_prefers_earlier_variant() {
    let s = PatternSchema::new(
        vec!["0".to_string(), "1".to_string()],
        vec![
            PatternVariant::new("wide", "", vec![PatBit::Any, PatBit::Zero]),
            PatternVariant::new("narrow", "", vec![PatBit::Zero, PatBit::Zero]),
            PatternVariant::new("other", "", vec![PatBit::Zero, PatBit::One]),
        ],
    )
    .unwrap();
    assert_eq!(s.decode(&[false, false]), Ok(0));
    assert_eq!(s.decode(&[true, false]), Ok(0));
    assert_eq!(s.decode(&[false, true]), Ok(2));
    // the encoding of the shadowed variant decodes to the earlier one
    assert_eq!(s.decode(&s.encode(1)), Ok(0));
}

#[test]
fn decode_without_match_fails() {
    let s = PatternSchema::new(
        vec!["0".to_string()],
        vec![PatternVariant::new("only", "", vec![PatBit::One])],
    )
    .unwrap();
    assert_eq!(s.decode(&[false]), Err(CodecError::NoMatchingVariant));
    assert_eq!(s.decode(&[]), Err(CodecError::NoMatchingVariant));
}

#[test]
fn decode_ignores_bits_past_the_pattern() {
    assert_eq!(bool::decode(&[true, false], ()), Ok(true));
    assert_eq!(bool::decode(&[false, true, true], ()), Ok(false));
    assert_eq!(XC2MCRegMode::decode(&[true, false, true], ()), Ok(XC2MCRegMode::TFF));
}

#[test]
fn canonical_order_is_a_bijection() {
    let s = PatternSchema::new(
        vec!["a".to_string(), "b".to_string(), "c".to_string()],
        vec![PatternVariant::new("v", "", vec![PatBit::Zero, PatBit::One, PatBit::Any])],
    )
    .unwrap();
    for p in 0..s.bits_len() {
        assert_eq!(s.name_to_pos(s.pos_to_name(p)), p);
    }
    assert_eq!(s.name_to_pos("b"), 1);
    assert_eq!(s.find_name("b"), Some(1));
    assert_eq!(s.find_name("d"), None);
}

#[test]
fn schema_construction_errors() {
    let r = PatternSchema::new(
        vec!["0".to_string(), "1".to_string()],
        vec![PatternVariant::new("short", "", vec![PatBit::Zero])],
    );
    assert_eq!(r.err(), Some(SchemaError::BitCountMismatch));
    let r = PatternSchema::new(
        vec!["0".to_string(), "0".to_string()],
        vec![PatternVariant::new("v", "", vec![PatBit::Zero, PatBit::One])],
    );
    assert_eq!(r.err(), Some(SchemaError::DuplicateBitName));

    let pat = two_bit_pattern();
    let r = resolve_bits(&pat, &vec![local("0", vec![0, 1], false), local("1", vec![1], false)], 1);
    assert_eq!(r.err(), Some(SchemaError::DimensionMismatch));
    let r = resolve_bits(&pat, &vec![local("0", vec![0], false), local("2", vec![1], false)], 1);
    assert_eq!(r.err(), Some(SchemaError::UnknownBitName));
    let r = resolve_bits(&pat, &vec![local("0", vec![0], false), local("0", vec![1], false)], 1);
    assert_eq!(r.err(), Some(SchemaError::DuplicateBitName));
    let r = resolve_bits(&pat, &vec![local("1", vec![0], false)], 1);
    assert_eq!(r.err(), Some(SchemaError::MissingBitName));

    let b = BitPlacement { pos: BitPos::Local(vec![isize::MAX]), invert: false };
    assert_eq!(place_bit(&b, &[1], &[false]).err(), Some(SchemaError::CoordinateOverflow));
    let b = BitPlacement { pos: BitPos::Local(vec![3]), invert: true };
    match place_bit(&b, &[10], &[true]).unwrap().pos {
        BitPos::Local(v) => assert_eq!(v, vec![7]),
        BitPos::Fixed(_) => panic!("placement lost its position"),
    }
}

#[test]
fn coordinate_algebra() {
    assert_eq!(resolve_dim(5, false, 3), Some(8));
    assert_eq!(resolve_dim(5, true, 3), Some(2));
    assert_eq!(resolve_dim(2, true, 3), None);
    assert_eq!(resolve_dim(usize::MAX, false, 1), None);
    // translation: shifting the offset shifts the result, either way round
    for m in [false, true] {
        for o in 10..14usize {
            for p in -3..4isize {
                let a = resolve_dim(o, m, p).unwrap();
                let b = resolve_dim(o + 5, m, p).unwrap();
                assert_eq!(b, a + 5);
                let c = resolve_dim(o, m, p + 1).unwrap();
                assert_eq!(c as isize, a as isize + if m { -1 } else { 1 });
            }
        }
    }
    assert_eq!(resolve(&[4, 4], &[false, true], &[1, 1]), Some(vec![5, 3]));
    assert_eq!(resolve(&[0, 4], &[true, true], &[1, 1]), None);
}

#[test]
fn grid_indexing_two_dimensions() {
    let mut g = Grid::new(vec![3, 2], false).unwrap();
    assert_eq!(g.cells.len(), 6);
    assert_eq!(g.index_of(&[2, 1]), Some(5));
    assert_eq!(g.index_of(&[1, 0]), Some(2));
    assert_eq!(g.index_of(&[3, 0]), None);
    assert_eq!(g.index_of(&[0]), None);
    assert!(g.set(&[1, 1], true));
    assert_eq!(g.get(&[1, 1]), Some(true));
    assert_eq!(g.cells, [false, false, false, true, false, false]);
    assert!(!g.set(&[0, 2], true));
    assert!(Grid::new(vec![usize::MAX, 2], false).is_none());
    assert_eq!(Grid::new(vec![usize::MAX, 2, 0], true).unwrap().cells.len(), 0);
}

#[test]
fn fixed_and_inverted_bits() {
    let mut l = FragmentLayout::new(1);
    let p = l.add_pattern(two_bit_pattern());
    let entries = vec![
        local("0", vec![0], true),
        NamedBit {
            name: "1".to_string(),
            placement: BitPlacement { pos: BitPos::Fixed(true), invert: false },
        },
    ];
    l.add_field("f".to_string(), "a field".to_string(), p, &entries).unwrap();
    assert_eq!(l.field_count(), 1);
    assert_eq!(l.field_name(0), "f");
    assert_eq!(l.field_desc(0), "a field");
    assert_eq!(l.field_kind(0), FieldKind::Pattern);
    let mut g = Grid::from_cells(vec![true; 2]);
    // variant C is "10": bit 0 is stored inverted, bit 1 is not stored
    l.encode(&[2], &mut g, &[0], &[false]).unwrap();
    assert_eq!(g.cells, [false, true]);
    // reading back: bit 0 = !false, bit 1 fixed true: "11" = D
    assert_eq!(l.decode(&g, &[0], &[false]), Ok(vec![3]));
}

#[test]
fn nested_fragment_round_trip() {
    let mut inner = FragmentLayout::new(1);
    let p = inner.add_pattern(two_bit_pattern());
    inner.add_field("x".to_string(), String::new(), p, &vec![local("0", vec![0], false), local("1", vec![1], true)]).unwrap();
    inner.add_field("y".to_string(), String::new(), p, &vec![local("0", vec![2], false), local("1", vec![3], false)]).unwrap();

    let mut outer = FragmentLayout::new(1);
    let q = outer.add_pattern(two_bit_pattern());
    outer.add_field("head".to_string(), String::new(), q, &vec![local("0", vec![0], false), local("1", vec![1], false)]).unwrap();
    // the nested layout sits at 5, mirrored: its local 0..3 land on 5, 4, 3, 2
    outer.add_fragment(inner, &vec![5], &vec![true]).unwrap();
    assert_eq!(outer.field_count(), 3);
    assert_eq!(outer.field_kind(1), FieldKind::Fragment);

    for offset in [0usize, 3] {
        let mut g = Grid::from_cells(vec![false; 9]);
        let values = [1usize, 2, 3];
        outer.encode(&values, &mut g, &[offset], &[false]).unwrap();
        assert_eq!(outer.decode(&g, &[offset], &[false]), Ok(values.to_vec()));
    }
    let mut g = Grid::from_cells(vec![false; 6]);
    outer.encode(&[1, 2, 3], &mut g, &[0], &[false]).unwrap();
    // head B = "01" at 0,1; x C = "10" at 5, !4; y D = "11" at 3, 2
    assert_eq!(g.cells, [false, true, true, true, true, true]);
}

#[test]
fn fragment_array_round_trip() {
    let mut inner = FragmentLayout::new(1);
    let p = inner.add_pattern(two_bit_pattern());
    inner.add_field("x".to_string(), String::new(), p, &vec![local("0", vec![0], false), local("1", vec![1], false)]).unwrap();
    let mut outer = FragmentLayout::new(1);
    outer.add_fragment_array(inner, &vec![vec![0], vec![2], vec![4]], &vec![false]).unwrap();
    assert_eq!(outer.field_kind(2), FieldKind::FragmentArray);
    let mut g = Grid::from_cells(vec![false; 6]);
    outer.encode(&[3, 0, 1], &mut g, &[0], &[false]).unwrap();
    assert_eq!(g.cells, [true, true, false, false, false, true]);
    assert_eq!(outer.decode(&g, &[0], &[false]), Ok(vec![3, 0, 1]));
}

fn sample_macrocell() -> XC2Macrocell {
    XC2Macrocell {
        clk_src: XC2MCRegClkSrc::CTC,
        clk_invert_pol: true,
        is_ddr: false,
        r_src: XC2MCRegResetSrc::GSR,
        s_src: XC2MCRegSetSrc::PTA,
        init_state: false,
        reg_mode: XC2MCRegMode::TFF,
        fb_mode: XC2MCFeedbackMode::REG,
        ff_in_ibuf: false,
        xor_mode: XC2MCXorMode::PTCB,
    }
}

#[test]
fn macrocell_round_trip_every_layout() {
    let mc = sample_macrocell();
    for l in [JedSmall::layout(), JedLarge::layout(false), JedLarge::layout(true)] {
        let mut g = Grid::from_cells(vec![false; 40]);
        mc.encode(&l, &mut g, &[5], &[false]).unwrap();
        assert_eq!(XC2Macrocell::decode(&l, &g, &[5], &[false]), Ok(mc));
        let mut g = Grid::from_cells(vec![true; 40]);
        mc.encode(&l, &mut g, &[35], &[true]).unwrap();
        assert_eq!(XC2Macrocell::decode(&l, &g, &[35], &[true]), Ok(mc));
    }
    for l in [Crbit32::layout(), Crbit64::layout(), Crbit256::layout(), CrbitLarge::layout()] {
        let mut g = Grid::new(vec![20, 4], false).unwrap();
        mc.encode(&l, &mut g, &[1, 1], &[false, false]).unwrap();
        assert_eq!(XC2Macrocell::decode(&l, &g, &[1, 1], &[false, false]), Ok(mc));
        let mut g = Grid::new(vec![20, 4], true).unwrap();
        mc.encode(&l, &mut g, &[19, 3], &[true, true]).unwrap();
        assert_eq!(XC2Macrocell::decode(&l, &g, &[19, 3], &[true, true]), Ok(mc));
    }
}

#[test]
fn macrocell_jed_small_bits() {
    let mc = XC2Macrocell::default();
    let l = JedSmall::layout();
    let mut g = Grid::from_cells(vec![false; 27]);
    mc.encode(&l, &mut g, &[0], &[false]).unwrap();
    let set: Vec<usize> = (0..27).filter(|&i| g.cells[i]).collect();
    // resets and sets disabled ("11" at 5,6 and 7,8), feedback disabled ("X1", bit 1 at 14),
    // input from the XOR gate (stored inverted at 15); power-up 1 is stored inverted at 26
    assert_eq!(set, vec![5, 6, 7, 8, 14, 15]);
}

#[test]
fn buried_macrocell_reads_ibuf_as_false() {
    let mut mc = sample_macrocell();
    mc.ff_in_ibuf = true;
    let l = JedLargeBuried::layout();
    let mut g = Grid::from_cells(vec![false; 16]);
    mc.encode(&l, &mut g, &[0], &[false]).unwrap();
    assert_eq!(XC2Macrocell::decode(&l, &g, &[0], &[false]).unwrap().ff_in_ibuf, false);
}

#[test]
fn macrocell_outside_grid() {
    let l = JedSmall::layout();
    let g = Grid::from_cells(vec![false; 10]);
    assert_eq!(XC2Macrocell::decode(&l, &g, &[0], &[false]), Err(CodecError::OutOfRange));
    let mut g = Grid::from_cells(vec![false; 10]);
    assert_eq!(XC2Macrocell::default().encode(&l, &mut g, &[0], &[false]), Err(CodecError::OutOfRange));
    assert_eq!(g.cells, vec![false; 10]);
}

#[test]
fn decode_reports_first_failing_field() {
    let only_one = PatternSchema::new(
        vec!["0".to_string()],
        vec![PatternVariant::new("one", "", vec![PatBit::One])],
    )
    .unwrap();
    let mut l = FragmentLayout::new(1);
    let p = l.add_pattern(two_bit_pattern());
    let q = l.add_pattern(only_one);
    l.add_field("a".to_string(), String::new(), p, &vec![local("0", vec![0], false), local("1", vec![1], false)]).unwrap();
    l.add_field("b".to_string(), String::new(), q, &vec![local("0", vec![2], false)]).unwrap();
    l.add_field("c".to_string(), String::new(), q, &vec![local("0", vec![9], false)]).unwrap();
    // field b reads a zero and matches nothing; field c lies outside the grid
    let g = Grid::from_cells(vec![true, false, false]);
    assert_eq!(l.decode(&g, &[0], &[false]), Err(CodecError::NoMatchingVariant));
    let g = Grid::from_cells(vec![true, false, true]);
    assert_eq!(l.decode(&g, &[0], &[false]), Err(CodecError::OutOfRange));
    let g = Grid::from_cells(vec![true, false, true, false, false, false, false, false, false, true]);
    assert_eq!(l.decode(&g, &[0], &[false]), Ok(vec![2, 0, 0]));
}

#[test]
fn register_mode_docs_table() {
    let expected = "01 |       |\n\
---+-------+---------------------------------------\n\
00 | DFF   | D-type flip-flop\n\
01 | LATCH | Transparent latch\n\
10 | TFF   | Toggle flip-flop\n\
11 | DFFCE | D-type flip-flop with clock-enable pin\n";
    assert_eq!(XC2MCRegMode::docs_as_ascii_table(), expected);
    let fb = "01 |          |\n\
---+----------+-\n\
x1 | Disabled | \n\
00 | COMB     | \n\
10 | REG      | \n";
    assert_eq!(XC2MCFeedbackMode::docs_as_ascii_table(), fb);
}

#[test]
fn default_macrocell_text() {
    let expected = "FF mode: D flip-flop\n\
initial state: 1\n\
rising-edge triggered\n\
DDR: no\n\
clock source: GCK0\n\
set source: disabled\n\
reset source: disabled\n\
using ibuf direct path: no\n\
XOR gate input: 0\n\
ZIA feedback: disabled\n";
    assert_eq!(XC2Macrocell::default().to_display_string(), expected);
    let t = sample_macrocell().to_display_string();
    assert!(t.contains("falling-edge triggered\n"));
    assert!(t.contains("XOR gate input: ~PTC\n"));
    assert!(t.contains("FF mode: T flip-flop\n"));
}

#[test]
fn macrocell_layout_field_docs() {
    for l in [JedSmall::layout(), JedLarge::layout(true), Crbit64::layout()] {
        assert_eq!(l.field_count(), 10);
        assert_eq!(l.field_name(0), "clk_src");
        assert_eq!(l.field_name(9), "xor_mode");
        assert_eq!(l.field_desc(6), "Register mode");
        assert_eq!(l.field_kind(3), FieldKind::Pattern);
    }
}

#[test]
fn decode_of_translated_and_reflected_grid() {
    let l = JedSmall::layout();
    let mc = sample_macrocell();
    let mut g1 = Grid::from_cells(vec![false; 30]);
    mc.encode(&l, &mut g1, &[0], &[false]).unwrap();
    // the same cells moved three places on
    let mut shifted = vec![true; 3];
    shifted.extend_from_slice(&g1.cells);
    let g2 = Grid::from_cells(shifted);
    assert_eq!(XC2Macrocell::decode(&l, &g2, &[3], &[false]), XC2Macrocell::decode(&l, &g1, &[0], &[false]));
    // the same cells reflected about the origin 29
    let reflected: Vec<bool> = g1.cells.iter().rev().cloned().collect();
    let g3 = Grid::from_cells(reflected);
    assert_eq!(XC2Macrocell::decode(&l, &g3, &[29], &[true]), Ok(mc));
}
