use gds_gerber::geometry::{Pattern, Point, Region};
use gds_gerber::gerber::{coord_from_gds, encode_commands, EmitError, GerberCommand};
use gds_gerber::layout::{Element, Library, Structure};

fn pt(x: i32, y: i32) -> Point {
    Point { x, y }
}

fn pattern(regions: &[&[(i32, i32)]]) -> Pattern {
    Pattern {
        regions: regions
            .iter()
            .map(|r| Region { points: r.iter().map(|&(x, y)| pt(x, y)).collect() })
            .collect(),
    }
}

fn lib_with_unit(nm: u64) -> Library {
    Library { structures: vec![], db_unit_nm: nm }
}

#[test]
fn square_through_reference() {
    let lib = Library {
        structures: vec![
            Structure {
                name: "A".to_string(),
                elements: vec![Element::Boundary {
                    layer: 1,
                    points: vec![pt(0, 0), pt(1000, 0), pt(1000, 1000), pt(0, 1000)],
                }],
            },
            Structure {
                name: "B".to_string(),
                elements: vec![Element::StructRef { name: "A".to_string(), offset: pt(2000, 0) }],
            },
        ],
        db_unit_nm: 1000,
    };
    let pat = Pattern::from_gds_struct(&lib, &"B".to_string(), 1).unwrap();
    assert_eq!(pat.regions.len(), 1);
    assert_eq!(pat.regions[0].points, vec![pt(2000, 0), pt(3000, 0), pt(3000, 1000), pt(2000, 1000)]);
    let cmds = pat.gerber_commands(&lib).unwrap();
    assert_eq!(
        cmds,
        vec![
            GerberCommand::CoordinateFormat,
            GerberCommand::UnitMillimeters,
            GerberCommand::RegionMode(true),
            GerberCommand::Move(2_000_000, 0),
            GerberCommand::Interpolate(2_000_000, 0),
            GerberCommand::Interpolate(3_000_000, 0),
            GerberCommand::Interpolate(3_000_000, 1_000_000),
            GerberCommand::Interpolate(2_000_000, 1_000_000),
            GerberCommand::RegionMode(false),
            GerberCommand::EndOfFile,
        ]
    );
    let bytes = pat.write_gerber(&lib).unwrap();
    assert_eq!(
        String::from_utf8(bytes).unwrap(),
        "%FSLAX66Y66*%\n%MOMM*%\nG36*\nX2000000Y0D02*\nX2000000Y0D01*\nX3000000Y0D01*\n\
         X3000000Y1000000D01*\nX2000000Y1000000D01*\nG37*\nM02*\n"
    );
}

#[test]
fn emission_is_deterministic() {
    let lib = lib_with_unit(5);
    let pat = pattern(&[&[(1, 2), (3, -4)], &[(-7, 8)]]);
    let a = pat.write_gerber(&lib).unwrap();
    let b = pat.write_gerber(&lib).unwrap();
    assert_eq!(a, b);
}

#[test]
fn empty_pattern_has_header_and_footer_only() {
    let pat = pattern(&[]);
    let bytes = pat.write_gerber(&lib_with_unit(1)).unwrap();
    assert_eq!(String::from_utf8(bytes).unwrap(), "%FSLAX66Y66*%\n%MOMM*%\nG36*\nG37*\nM02*\n");
}

#[test]
fn empty_region_is_refused() {
    let pat = pattern(&[&[(1, 1)], &[]]);
    assert_eq!(pat.write_gerber(&lib_with_unit(1)), Err(EmitError::EmptyRegion));
}

#[test]
fn coordinate_out_of_format_is_refused() {
    // 1_000_000 units of 1_000_000 nm are 1_000_000 mm: seven integer digits.
    let pat = pattern(&[&[(0, 0), (1_000_000, 0)]]);
    assert_eq!(pat.write_gerber(&lib_with_unit(1_000_000)), Err(EmitError::CoordinateRange));
    let pat = pattern(&[&[(0, 0), (999_999, -999_999)]]);
    assert!(pat.write_gerber(&lib_with_unit(1_000_000)).is_ok());
}

#[test]
fn coordinate_conversion_values() {
    assert_eq!(coord_from_gds(2000, &lib_with_unit(1000)), Ok(2_000_000));
    assert_eq!(coord_from_gds(-3, &lib_with_unit(7)), Ok(-21));
    assert_eq!(coord_from_gds(0, &lib_with_unit(u64::MAX)), Ok(0));
    assert_eq!(coord_from_gds(1, &lib_with_unit(1_000_000_000_000)), Err(EmitError::CoordinateRange));
    assert_eq!(coord_from_gds(-1, &lib_with_unit(999_999_999_999)), Ok(-999_999_999_999));
    assert_eq!(coord_from_gds(i32::MIN, &lib_with_unit(u64::MAX)), Err(EmitError::CoordinateRange));
}

#[test]
fn commands_are_serialized_in_order() {
    let cmds = vec![
        GerberCommand::RegionMode(true),
        GerberCommand::Move(-1_500_000, 250),
        GerberCommand::Interpolate(0, 12),
        GerberCommand::EndOfFile,
    ];
    let bytes = encode_commands(&cmds).unwrap();
    assert_eq!(String::from_utf8(bytes).unwrap(), "G36*\nX-1500000Y250D02*\nX0Y12D01*\nM02*\n");
}

#[test]
fn serializing_out_of_range_command_fails() {
    let cmds = vec![GerberCommand::Move(1_000_000_000_000, 0)];
    assert_eq!(encode_commands(&cmds), Err(EmitError::CoordinateRange));
}
