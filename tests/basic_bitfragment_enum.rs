use bittwiddler::fragment::{BitPlacement, BitPos, FragmentLayout};
use bittwiddler::grid::Grid;
use bittwiddler::layout::NamedBit;
use bittwiddler::pattern::{PatBit, PatternSchema, PatternVariant};

#[derive(Debug, PartialEq, Eq, Clone, Copy)]
enum MyEnum {
    Choice1,
    Choice2,
    Choice3,
    Choice4,
}

impl MyEnum {
    fn index(self) -> usize {
        match self {
            MyEnum::Choice1 => 0,
            MyEnum::Choice2 => 1,
            MyEnum::Choice3 => 2,
            MyEnum::Choice4 => 3,
        }
    }

    fn from_index(i: usize) -> MyEnum {
        [MyEnum::Choice1, MyEnum::Choice2, MyEnum::Choice3, MyEnum::Choice4][i]
    }
}

fn my_enum_pattern() -> PatternSchema {
    PatternSchema::new(
        vec!["0".to_string(), "1".to_string()],
        vec![
            PatternVariant::new("Choice1", "", vec![PatBit::Zero, PatBit::Zero]),
            PatternVariant::new("Choice2", "", vec![PatBit::Zero, PatBit::One]),
            PatternVariant::new("Choice3", "", vec![PatBit::One, PatBit::Zero]),
            PatternVariant::new("Choice4", "", vec![PatBit::One, PatBit::One]),
        ],
    )
    .unwrap()
}

fn at(name: &str, x: isize) -> NamedBit {
    NamedBit {
        name: name.to_string(),
        placement: BitPlacement { pos: BitPos::Local(vec![x]), invert: false },
    }
}

// "0" = 1, "1" = 2
fn my_enum_layout() -> FragmentLayout {
    let mut l = FragmentLayout::new(1);
    let p = l.add_pattern(my_enum_pattern());
    l.add_field("MyEnum".to_string(), String::new(), p, &vec![at("0", 1), at("1", 2)]).unwrap();
    l
}

fn encode(x: MyEnum, out: &mut Grid, offset: usize, mirror: bool) {
    my_enum_layout().encode(&[x.index()], out, &[offset], &[mirror]).unwrap();
}

fn decode(x: &[bool], offset: usize, mirror: bool) -> MyEnum {
    let g = Grid::from_cells(x.to_vec());
    let v = my_enum_layout().decode(&g, &[offset], &[mirror]).unwrap();
    MyEnum::from_index(v[0])
}

#[test]
fn basic_bitfragment_enum_encode() {
    let mut out = Grid::from_cells(vec![false; 3]);

    encode(MyEnum::Choice2, &mut out, 0, false);
    assert_eq!(out.cells, [false, false, true]);

    encode(MyEnum::Choice3, &mut out, 0, false);
    assert_eq!(out.cells, [false, true, false]);

    // offset
    let mut out = Grid::from_cells(vec![true; 5]);

    encode(MyEnum::Choice2, &mut out, 1, false);
    assert_eq!(out.cells, [true, true, false, true, true]);

    encode(MyEnum::Choice3, &mut out, 1, false);
    assert_eq!(out.cells, [true, true, true, false, true]);

    // mirroring
    let mut out = Grid::from_cells(vec![false; 3]);
    encode(MyEnum::Choice2, &mut out, 2, true);
    assert_eq!(out.cells, [true, false, false]);

    let mut out = Grid::from_cells(vec![true; 5]);
    encode(MyEnum::Choice3, &mut out, 3, true);
    assert_eq!(out.cells, [true, false, true, true, true]);
}

#[test]
fn basic_bitfragment_enum_decode() {
    let x = [true, false, false];
    assert_eq!(decode(&x, 0, false), MyEnum::Choice1);

    let x = [false, true, true];
    assert_eq!(decode(&x, 0, false), MyEnum::Choice4);

    // offset
    let x = [false, false, false, true, false, false];
    assert_eq!(decode(&x, 3, false), MyEnum::Choice1);

    let x = [true, true, true, false, true, true];
    assert_eq!(decode(&x, 3, false), MyEnum::Choice4);

    // mirroring
    let x = [true, false, false];
    assert_eq!(decode(&x, 2, true), MyEnum::Choice2);

    let x = [true, true, true, false, true, true];
    assert_eq!(decode(&x, 5, true), MyEnum::Choice3);
}

#[test]
fn scenario_second_variant_offsets_and_mirroring() {
    let mut out = Grid::from_cells(vec![false; 3]);
    encode(MyEnum::Choice2, &mut out, 0, false);
    assert_eq!(out.cells, [false, false, true]);

    // at offset 1 the bits land one cell further on; the cells before them
    // stay as the caller supplied them
    let mut out = Grid::from_cells(vec![true, true, true, true]);
    encode(MyEnum::Choice2, &mut out, 1, false);
    assert_eq!(&out.cells[0..2], &[true, true]);
    assert_eq!(&out.cells[2..4], &[false, true]);

    // a grid too short for the placement is left untouched
    let mut out = Grid::from_cells(vec![true, true, true]);
    let r = my_enum_layout().encode(&[MyEnum::Choice2.index()], &mut out, &[1], &[false]);
    assert_eq!(r, Err(bittwiddler::error::CodecError::OutOfRange));
    assert_eq!(out.cells, [true, true, true]);

    let mut out = Grid::from_cells(vec![false; 3]);
    encode(MyEnum::Choice2, &mut out, 2, true);
    assert_eq!(out.cells, [true, false, false]);
}
