use bittwiddler::fragment::{BitPlacement, BitPos, FragmentLayout};
use bittwiddler::grid::Grid;
use bittwiddler::layout::NamedBit;
use bittwiddler::pattern::{PatBit, PatternSchema, PatternVariant};

#[derive(Debug, PartialEq, Eq, Clone, Copy)]
enum MyEnum {
    Choice1,
    Choice2,
    Choice3,
    Choice4,
}

impl MyEnum {
    fn index(self) -> usize {
        match self {
            MyEnum::Choice1 => 0,
            MyEnum::Choice2 => 1,
            MyEnum::Choice3 => 2,
            MyEnum::Choice4 => 3,
        }
    }

    fn from_index(i: usize) -> MyEnum {
        [MyEnum::Choice1, MyEnum::Choice2, MyEnum::Choice3, MyEnum::Choice4][i]
    }
}

const DIM1: usize = 2;
const DIM2: usize = 3;

#[derive(Debug, PartialEq, Eq)]
struct MyStruct1 {
    field_enum: [[[MyEnum; DIM1]; 1]; DIM2],
    field_bool: [bool; 1],
}

fn at(name: &str, x: isize) -> NamedBit {
    NamedBit {
        name: name.to_string(),
        placement: BitPlacement { pos: BitPos::Local(vec![x]), invert: false },
    }
}

fn my_enum_pattern() -> PatternSchema {
    PatternSchema::new(
        vec!["0".to_string(), "1".to_string()],
        vec![
            PatternVariant::new("Choice1", "", vec![PatBit::Zero, PatBit::Zero]),
            PatternVariant::new("Choice2", "", vec![PatBit::Zero, PatBit::One]),
            PatternVariant::new("Choice3", "", vec![PatBit::One, PatBit::Zero]),
            PatternVariant::new("Choice4", "", vec![PatBit::One, PatBit::One]),
        ],
    )
    .unwrap()
}

fn bool_pattern() -> PatternSchema {
    PatternSchema::new(
        vec!["0".to_string()],
        vec![
            PatternVariant::new("false", "false", vec![PatBit::Zero]),
            PatternVariant::new("true", "true", vec![PatBit::One]),
        ],
    )
    .unwrap()
}

// field_enum: "0" = 1, "1" = 2, element i at [i * 2]
// field_bool: "0" = 0, element at [0]
fn my_struct1_layout() -> FragmentLayout {
    let mut l = FragmentLayout::new(1);
    let e = l.add_pattern(my_enum_pattern());
    let b = l.add_pattern(bool_pattern());
    let offsets: Vec<Vec<isize>> = (0..(DIM1 * DIM2) as isize).map(|i| vec![i * 2]).collect();
    l.add_pattern_array(
        "field_enum".to_string(),
        String::new(),
        e,
        &vec![at("0", 1), at("1", 2)],
        &offsets,
    )
    .unwrap();
    l.add_pattern_array("field_bool".to_string(), String::new(), b, &vec![at("0", 0)], &vec![vec![0]])
        .unwrap();
    l
}

impl MyStruct1 {
    fn values(&self) -> Vec<usize> {
        let mut v = Vec::new();
        for a in self.field_enum.iter() {
            for b in a.iter() {
                for c in b.iter() {
                    v.push(c.index());
                }
            }
        }
        v.push(if self.field_bool[0] { 1 } else { 0 });
        v
    }

    fn from_values(v: &[usize]) -> MyStruct1 {
        let e = |i: usize| MyEnum::from_index(v[i]);
        MyStruct1 {
            field_enum: [[[e(0), e(1)]], [[e(2), e(3)]], [[e(4), e(5)]]],
            field_bool: [v[6] == 1],
        }
    }

    fn encode(&self, out: &mut Grid, offset: usize, mirror: bool) {
        my_struct1_layout().encode(&self.values(), out, &[offset], &[mirror]).unwrap();
    }

    fn decode(x: &[bool], offset: usize, mirror: bool) -> MyStruct1 {
        let g = Grid::from_cells(x.to_vec());
        MyStruct1::from_values(&my_struct1_layout().decode(&g, &[offset], &[mirror]).unwrap())
    }
}

#[test]
fn pattern_array_encode() {
    let mut out = Grid::from_cells(vec![false; 13]);

    let x = MyStruct1 {
        field_enum: [
            [[MyEnum::Choice1, MyEnum::Choice2]],
            [[MyEnum::Choice3, MyEnum::Choice4]],
            [[MyEnum::Choice1, MyEnum::Choice4]],
        ],
        field_bool: [true],
    };
    x.encode(&mut out, 0, false);
    assert_eq!(out.cells, [true,
        false, false,
        false, true,
        true, false,
        true, true,
        false, false,
        true, true]);

    let x = MyStruct1 {
        field_enum: [
            [[MyEnum::Choice2, MyEnum::Choice3]],
            [[MyEnum::Choice4, MyEnum::Choice1]],
            [[MyEnum::Choice1, MyEnum::Choice3]],
        ],
        field_bool: [true],
    };
    x.encode(&mut out, 0, false);
    assert_eq!(out.cells, [true,
        false, true,
        true, false,
        true, true,
        false, false,
        false, false,
        true, false]);

    let x = MyStruct1 {
        field_enum: [
            [[MyEnum::Choice1, MyEnum::Choice2]],
            [[MyEnum::Choice3, MyEnum::Choice4]],
            [[MyEnum::Choice1, MyEnum::Choice4]],
        ],
        field_bool: [true],
    };
    x.encode(&mut out, 12, true);
    assert_eq!(out.cells, [
        true, true,
        false, false,
        true, true,
        false, true,
        true, false,
        false, false,
        true]);

    let x = MyStruct1 {
        field_enum: [
            [[MyEnum::Choice2, MyEnum::Choice3]],
            [[MyEnum::Choice4, MyEnum::Choice1]],
            [[MyEnum::Choice1, MyEnum::Choice3]],
        ],
        field_bool: [true],
    };
    x.encode(&mut out, 12, true);
    assert_eq!(out.cells, [
        false, true,
        false, false,
        false, false,
        true, true,
        false, true,
        true, false,
        true]);
}

#[test]
fn pattern_array_decode() {
    let x = [false,
        true, true,
        false, true,
        true, false,
        false, false,
        false, true,
        true, false];
    let out = MyStruct1::decode(&x[..], 0, false);
    assert_eq!(out, MyStruct1 {
        field_enum: [
            [[MyEnum::Choice4, MyEnum::Choice2]],
            [[MyEnum::Choice3, MyEnum::Choice1]],
            [[MyEnum::Choice2, MyEnum::Choice3]],
        ],
        field_bool: [false],
    });

    let x = [false,
        true, false,
        false, true,
        true, true,
        false, false,
        false, false,
        true, false];
    let out = MyStruct1::decode(&x[..], 0, false);
    assert_eq!(out, MyStruct1 {
        field_enum: [
            [[MyEnum::Choice3, MyEnum::Choice2]],
            [[MyEnum::Choice4, MyEnum::Choice1]],
            [[MyEnum::Choice1, MyEnum::Choice3]],
        ],
        field_bool: [false],
    });

    let x = [
        false, true,
        true, false,
        false, false,
        false, true,
        true, false,
        true, true,
        false];
    let out = MyStruct1::decode(&x[..], 12, true);
    assert_eq!(out, MyStruct1 {
        field_enum: [
            [[MyEnum::Choice4, MyEnum::Choice2]],
            [[MyEnum::Choice3, MyEnum::Choice1]],
            [[MyEnum::Choice2, MyEnum::Choice3]],
        ],
        field_bool: [false],
    });

    let x = [
        false, true,
        false, false,
        false, false,
        true, true,
        true, false,
        false, true,
        false];
    let out = MyStruct1::decode(&x[..], 12, true);
    assert_eq!(out, MyStruct1 {
        field_enum: [
            [[MyEnum::Choice3, MyEnum::Choice2]],
            [[MyEnum::Choice4, MyEnum::Choice1]],
            [[MyEnum::Choice1, MyEnum::Choice3]],
        ],
        field_bool: [false],
    });
}
