use gds_gerber::flatten::FlattenError;
use gds_gerber::geometry::{Pattern, Point};
use gds_gerber::layout::{Element, Library, Structure};

fn pt(x: i32, y: i32) -> Point {
    Point { x, y }
}

fn boundary(layer: i16, pts: &[(i32, i32)]) -> Element {
    Element::Boundary { layer, points: pts.iter().map(|&(x, y)| pt(x, y)).collect() }
}

fn sref(name: &str, x: i32, y: i32) -> Element {
    Element::StructRef { name: name.to_string(), offset: pt(x, y) }
}

fn structure(name: &str, elements: Vec<Element>) -> Structure {
    Structure { name: name.to_string(), elements }
}

fn points_of(p: &Pattern) -> Vec<Vec<(i32, i32)>> {
    p.regions.iter().map(|r| r.points.iter().map(|q| (q.x, q.y)).collect()).collect()
}

fn flat(lib: &Library, name: &str, layer: i16) -> Result<Vec<Vec<(i32, i32)>>, FlattenError> {
    Pattern::from_gds_struct(lib, &name.to_string(), layer).map(|p| points_of(&p))
}

#[test]
fn same_layer_boundaries_come_out_unchanged() {
    let a = [(0, 0), (10, 0), (10, 10)];
    let b = [(5, 5), (5, 5), (7, 9), (1, 2)];
    let lib = Library {
        structures: vec![structure("S", vec![boundary(3, &a), boundary(3, &b)])],
        db_unit_nm: 1,
    };
    assert_eq!(flat(&lib, "S", 3), Ok(vec![a.to_vec(), b.to_vec()]));
}

#[test]
fn reference_shifts_every_point() {
    let lib = Library {
        structures: vec![
            structure("A", vec![boundary(1, &[(0, 0), (1, 2)]), boundary(1, &[(-3, 4)])]),
            structure("B", vec![sref("A", 100, -50)]),
        ],
        db_unit_nm: 1,
    };
    assert_eq!(flat(&lib, "B", 1), Ok(vec![vec![(100, -50), (101, -48)], vec![(97, -46)]]));
}

#[test]
fn nested_references_add_offsets() {
    let lib = Library {
        structures: vec![
            structure("C", vec![boundary(2, &[(1, 1)])]),
            structure("B", vec![sref("C", 10, 20)]),
            structure("A", vec![boundary(2, &[(0, 0)]), sref("B", 100, 200)]),
        ],
        db_unit_nm: 1,
    };
    assert_eq!(flat(&lib, "A", 2), Ok(vec![vec![(0, 0)], vec![(111, 221)]]));
}

#[test]
fn layer_filter_keeps_only_matching_boundaries() {
    let lib = Library {
        structures: vec![structure(
            "S",
            vec![boundary(1, &[(1, 1)]), boundary(2, &[(2, 2)]), Element::Text, boundary(1, &[(3, 3)])],
        )],
        db_unit_nm: 1,
    };
    assert_eq!(flat(&lib, "S", 1), Ok(vec![vec![(1, 1)], vec![(3, 3)]]));
    assert_eq!(flat(&lib, "S", 2), Ok(vec![vec![(2, 2)]]));
    assert_eq!(flat(&lib, "S", 7), Ok(vec![]));
}

#[test]
fn missing_structure_is_not_found() {
    let lib = Library { structures: vec![structure("A", vec![boundary(1, &[(0, 0)])])], db_unit_nm: 1 };
    assert_eq!(flat(&lib, "Z", 1), Err(FlattenError::StructureNotFound));
}

#[test]
fn missing_referenced_structure_is_not_found() {
    let lib = Library {
        structures: vec![structure("A", vec![boundary(1, &[(0, 0)]), sref("Q", 0, 0)])],
        db_unit_nm: 1,
    };
    assert_eq!(flat(&lib, "A", 1), Err(FlattenError::StructureNotFound));
}

#[test]
fn other_element_is_unsupported() {
    let lib = Library { structures: vec![structure("A", vec![Element::Other])], db_unit_nm: 1 };
    assert_eq!(flat(&lib, "A", 1), Err(FlattenError::UnsupportedElement));
}

#[test]
fn reference_cycle_is_reported() {
    let lib = Library {
        structures: vec![structure("A", vec![sref("B", 0, 0)]), structure("B", vec![sref("A", 1, 1)])],
        db_unit_nm: 1,
    };
    assert_eq!(flat(&lib, "A", 1), Err(FlattenError::ReferenceCycle));
}

#[test]
fn offset_overflow_is_reported() {
    let lib = Library {
        structures: vec![
            structure("A", vec![boundary(1, &[(i32::MAX, 0)])]),
            structure("B", vec![sref("A", 1, 0)]),
        ],
        db_unit_nm: 1,
    };
    assert_eq!(flat(&lib, "B", 1), Err(FlattenError::CoordinateOverflow));
}

#[test]
fn first_structure_of_a_name_is_used() {
    let lib = Library {
        structures: vec![
            structure("A", vec![boundary(1, &[(1, 0)])]),
            structure("A", vec![boundary(1, &[(2, 0)])]),
        ],
        db_unit_nm: 1,
    };
    assert_eq!(flat(&lib, "A", 1), Ok(vec![vec![(1, 0)]]));
}

#[test]
fn point_checked_add() {
    assert_eq!(pt(1, 2).checked_add(pt(3, -4)), Some(pt(4, -2)));
    assert_eq!(pt(i32::MIN, 0).checked_add(pt(-1, 0)), None);
}
