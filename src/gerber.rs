//! Emission of a flat pattern as a Gerber command stream.
use vstd::prelude::*;

use gerber_types::{
    Command, CoordinateFormat, CoordinateNumber, Coordinates, DCode, GCode, GerberCode, MCode,
    Operation, Unit,
};

use crate::geometry::{Pattern, Point};
use crate::layout::Library;

verus! {

/// Coordinates are written with six integer and six fractional digits of a
/// millimetre; their magnitude must stay below this many millionths.
pub const COORD_LIMIT: i64 = 1_000_000_000_000;

/// Integer digits of a written coordinate.
pub const INTEGER_DIGITS: u8 = 6;

/// Fractional digits of a written coordinate.
pub const DECIMAL_DIGITS: u8 = 6;

/// Why a pattern could not be emitted.
#[derive(Debug, Clone, Copy, PartialEq, Eq, Structural)]
pub enum EmitError {
    /// A region without any point.
    EmptyRegion,
    /// A coordinate does not fit the six-by-six fixed-point format.
    CoordinateRange,
}

/// One plotter command. Coordinates are in millionths of a millimetre.
#[derive(Debug, Clone, Copy, PartialEq, Eq, Structural)]
pub enum GerberCommand {
    /// The coordinate format: six integer and six fractional digits.
    CoordinateFormat,
    /// Coordinates are in millimetres.
    UnitMillimeters,
    /// Region mode on (`true`) or off (`false`).
    RegionMode(bool),
    /// Move to a point without drawing.
    Move(i64, i64),
    /// Draw to a point.
    Interpolate(i64, i64),
    /// The end of the file.
    EndOfFile,
}

/// Whether `v` millionths of a millimetre can be written in the format.
pub open spec fn coord_fits(v: int) -> bool {
    -COORD_LIMIT < v < COORD_LIMIT
}

/// Whether the coordinates of `c`, if any, can be written in the format.
pub open spec fn command_fits(c: GerberCommand) -> bool {
    match c {
        GerberCommand::Move(x, y) => coord_fits(x as int) && coord_fits(y as int),
        GerberCommand::Interpolate(x, y) => coord_fits(x as int) && coord_fits(y as int),
        _ => true,
    }
}

/// The bytes that the Gerber serializer writes for `c` in a coordinate
/// format of `integer` and `decimal` digits.
pub uninterp spec fn command_code(c: GerberCommand, integer: u8, decimal: u8) -> Seq<u8>;

/// The declared error type of the Gerber serializer.
#[verifier::external_type_specification]
#[verifier::external_body]
pub struct ExGerberError(gerber_types::GerberError);

/// Relies on `GerberCode::serialize` of gerber_types' `Command`, written into
/// a `Vec<u8>` (which never fails to take bytes): in the six-by-six format
/// it succeeds on every command whose coordinates are below 10^12 in
/// magnitude (`CoordinateNumber::gerber`), and its bytes depend on the
/// command and the format alone.
#[verifier::external_body]
fn gerber_code(c: &GerberCommand, integer: u8, decimal: u8) -> (r: Result<
    Vec<u8>,
    gerber_types::GerberError,
>)
    requires
        integer == INTEGER_DIGITS,
        decimal == DECIMAL_DIGITS,
        command_fits(*c),
    ensures
        r is Ok,
        r matches Ok(b) ==> b@ == command_code(*c, integer, decimal),
{
    let f = CoordinateFormat::new(integer, decimal);
    let at = |x, y| Coordinates::new(CoordinateNumber::new(x), CoordinateNumber::new(y), f);
    let cmd: Command = match *c {
        GerberCommand::CoordinateFormat => f.into(),
        GerberCommand::UnitMillimeters => Unit::Millimeters.into(),
        GerberCommand::RegionMode(on) => GCode::RegionMode(on).into(),
        GerberCommand::Move(x, y) => DCode::Operation(Operation::Move(at(x, y))).into(),
        GerberCommand::Interpolate(x, y) => DCode::Operation(Operation::Interpolate(at(x, y), None)).into(),
        GerberCommand::EndOfFile => MCode::EndOfFile.into(),
    };
    let mut buf: Vec<u8> = Vec::new();
    cmd.serialize(&mut buf).map(|_| buf)
}

/// A coordinate of `v` database units of `nm` nanometres each, in
/// millionths of a millimetre (one millionth of a millimetre is a nanometre).
pub open spec fn coord_value(v: i32, nm: u64) -> int {
    v as int * nm as int
}

/// Converts a coordinate in database units to millionths of a millimetre,
/// failing where the value does not fit the output format.
pub fn coord_from_gds(v: i32, lib: &Library) -> (r: Result<i64, EmitError>)
    ensures
        r is Ok <==> coord_fits(coord_value(v, lib.db_unit_nm)),
        r matches Ok(c) ==> c as int == coord_value(v, lib.db_unit_nm),
        r matches Err(e) ==> e == EmitError::CoordinateRange,
{
    let a: i128 = v as i128;
    let b: i128 = lib.db_unit_nm as i128;
    assert(-0x8000_0000 <= a < 0x8000_0000 && 0 <= b < 0x1_0000_0000_0000_0000);
    assert(-0x8000_0000 * 0x1_0000_0000_0000_0000 <= a * b <= 0x8000_0000 * 0x1_0000_0000_0000_0000)
        by (nonlinear_arith)
        requires
            -0x8000_0000 <= a < 0x8000_0000,
            0 <= b < 0x1_0000_0000_0000_0000,
    ;
    let m: i128 = a * b;
    if -(COORD_LIMIT as i128) < m && m < COORD_LIMIT as i128 {
        Ok(m as i64)
    } else {
        Err(EmitError::CoordinateRange)
    }
}

pub open spec fn region_in_range(r: Seq<Point>, nm: u64) -> bool {
    forall|i: int|
        0 <= i < r.len() ==> coord_fits(coord_value(#[trigger] r[i].x, nm)) && coord_fits(
            coord_value(r[i].y, nm),
        )
}

/// What stops a region from being emitted, if anything.
pub open spec fn region_error(r: Seq<Point>, nm: u64) -> Option<EmitError> {
    if r.len() == 0 {
        Some(EmitError::EmptyRegion)
    } else if !region_in_range(r, nm) {
        Some(EmitError::CoordinateRange)
    } else {
        None
    }
}

pub open spec fn interpolate_to(p: Point, nm: u64) -> GerberCommand {
    GerberCommand::Interpolate(coord_value(p.x, nm) as i64, coord_value(p.y, nm) as i64)
}

/// The commands of one region: a move to its first point, then a draw to
/// each of its points, the first included.
pub open spec fn region_commands(r: Seq<Point>, nm: u64) -> Seq<GerberCommand> {
    seq![GerberCommand::Move(coord_value(r[0].x, nm) as i64, coord_value(r[0].y, nm) as i64)]
        + r.map_values(|p: Point| interpolate_to(p, nm))
}

/// The commands of the first `k` regions of `rs`, or the error of the first
/// region among them that cannot be emitted.
pub open spec fn regions_commands(rs: Seq<Seq<Point>>, nm: u64, k: int) -> Result<
    Seq<GerberCommand>,
    EmitError,
>
    decreases k,
{
    if k <= 0 {
        Ok(Seq::empty())
    } else {
        match regions_commands(rs, nm, k - 1) {
            Err(e) => Err(e),
            Ok(cs) => match region_error(rs[k - 1], nm) {
                Some(e) => Err(e),
                None => Ok(cs + region_commands(rs[k - 1], nm)),
            },
        }
    }
}

pub open spec fn header() -> Seq<GerberCommand> {
    seq![
        GerberCommand::CoordinateFormat,
        GerberCommand::UnitMillimeters,
        GerberCommand::RegionMode(true),
    ]
}

pub open spec fn footer() -> Seq<GerberCommand> {
    seq![GerberCommand::RegionMode(false), GerberCommand::EndOfFile]
}

/// The whole command stream of a pattern whose database unit is `nm`
/// nanometres.
pub open spec fn pattern_commands(rs: Seq<Seq<Point>>, nm: u64) -> Result<
    Seq<GerberCommand>,
    EmitError,
> {
    match regions_commands(rs, nm, rs.len() as int) {
        Err(e) => Err(e),
        Ok(body) => Ok(header() + body + footer()),
    }
}

/// The bytes of the first `k` commands of `cs`.
pub open spec fn encoded(cs: Seq<GerberCommand>, k: int) -> Seq<u8>
    decreases k,
{
    if k <= 0 {
        Seq::empty()
    } else {
        encoded(cs, k - 1) + command_code(cs[k - 1], INTEGER_DIGITS, DECIMAL_DIGITS)
    }
}

/// The bytes of all commands of `cs`.
pub open spec fn encoded_all(cs: Seq<GerberCommand>) -> Seq<u8> {
    encoded(cs, cs.len() as int)
}

proof fn lemma_emit_error_stays(rs: Seq<Seq<Point>>, nm: u64, k: int, m: int)
    requires
        1 <= k <= m,
        regions_commands(rs, nm, k) is Err,
    ensures
        regions_commands(rs, nm, m) == regions_commands(rs, nm, k),
    decreases m - k,
{
    if k < m {
        lemma_emit_error_stays(rs, nm, k, m - 1);
    }
}

proof fn lemma_range_step(r: Seq<Point>, i: int, nm: u64)
    requires
        0 <= i < r.len(),
        region_in_range(r.subrange(0, i), nm),
        coord_fits(coord_value(r[i].x, nm)),
        coord_fits(coord_value(r[i].y, nm)),
    ensures
        region_in_range(r.subrange(0, i + 1), nm),
        r.subrange(0, i + 1).map_values(|p: Point| interpolate_to(p, nm)) == r.subrange(
            0,
            i,
        ).map_values(|p: Point| interpolate_to(p, nm)).push(interpolate_to(r[i], nm)),
{
    let s = r.subrange(0, i + 1);
    assert(s =~= r.subrange(0, i).push(r[i]));
    assert forall|j: int| 0 <= j < s.len() implies coord_fits(coord_value(#[trigger] s[j].x, nm))
        && coord_fits(coord_value(s[j].y, nm)) by {
        if j < i {
            assert(s[j] == r.subrange(0, i)[j]);
        }
    }
    assert(s.map_values(|p: Point| interpolate_to(p, nm)) =~= r.subrange(0, i).map_values(
        |p: Point| interpolate_to(p, nm),
    ).push(interpolate_to(r[i], nm)));
}

/// Serializes commands one after another.
pub fn encode_commands(cmds: &Vec<GerberCommand>) -> (r: Result<Vec<u8>, EmitError>)
    ensures
        r is Ok <==> forall|i: int| 0 <= i < cmds@.len() ==> command_fits(#[trigger] cmds@[i]),
        r matches Ok(b) ==> b@ == encoded_all(cmds@),
        r matches Err(e) ==> e == EmitError::CoordinateRange,
{
    let mut out: Vec<u8> = Vec::new();
    let mut i: usize = 0;
    while i < cmds.len()
        invariant
            i <= cmds.len(),
            out@ == encoded(cmds@, i as int),
            forall|j: int| 0 <= j < i ==> command_fits(#[trigger] cmds@[j]),
        decreases cmds.len() - i,
    {
        let c = cmds[i];
        let fits = match c {
            GerberCommand::Move(x, y) => -COORD_LIMIT < x && x < COORD_LIMIT && -COORD_LIMIT < y
                && y < COORD_LIMIT,
            GerberCommand::Interpolate(x, y) => -COORD_LIMIT < x && x < COORD_LIMIT && -COORD_LIMIT
                < y && y < COORD_LIMIT,
            _ => true,
        };
        if !fits {
            return Err(EmitError::CoordinateRange);
        }
        match gerber_code(&c, INTEGER_DIGITS, DECIMAL_DIGITS) {
            Ok(mut b) => {
                out.append(&mut b);
            },
            Err(_) => {
                return Err(EmitError::CoordinateRange);
            },
        }
        i += 1;
    }
    Ok(out)
}

pub open spec fn commands_result(r: Result<Vec<GerberCommand>, EmitError>) -> Result<
    Seq<GerberCommand>,
    EmitError,
> {
    match r {
        Ok(v) => Ok(v@),
        Err(e) => Err(e),
    }
}

pub open spec fn all_fit(cs: Seq<GerberCommand>) -> bool {
    forall|i: int| 0 <= i < cs.len() ==> command_fits(#[trigger] cs[i])
}

/// Whether `r` is what emitting `rs` with a database unit of `nm`
/// nanometres gives: the bytes of its command stream, or the error that
/// stops it.
pub open spec fn emits(rs: Seq<Seq<Point>>, nm: u64, r: Result<Vec<u8>, EmitError>) -> bool {
    match pattern_commands(rs, nm) {
        Ok(cs) => r matches Ok(b) && b@ == encoded_all(cs),
        Err(e) => r == Err::<Vec<u8>, EmitError>(e),
    }
}

pub open spec fn bytes_result(r: Result<Vec<u8>, EmitError>) -> Result<Seq<u8>, EmitError> {
    match r {
        Ok(b) => Ok(b@),
        Err(e) => Err(e),
    }
}

/// Emission is deterministic: two emissions of the same pattern with the
/// same database unit give the same bytes, or the same error.
pub proof fn lemma_emission_deterministic(
    rs: Seq<Seq<Point>>,
    nm: u64,
    r1: Result<Vec<u8>, EmitError>,
    r2: Result<Vec<u8>, EmitError>,
)
    requires
        emits(rs, nm, r1),
        emits(rs, nm, r2),
    ensures
        bytes_result(r1) == bytes_result(r2),
{
}

impl Pattern {
    /// The command stream of this pattern: the format, the unit and region
    /// mode on; per region a move to its first point and a draw to each of
    /// its points; then region mode off and the end of the file.
    pub fn gerber_commands(&self, lib: &Library) -> (r: Result<Vec<GerberCommand>, EmitError>)
        ensures
            commands_result(r) == pattern_commands(self@, lib.db_unit_nm),
            r matches Ok(v) ==> all_fit(v@),
    {
        let ghost rs = self@;
        let ghost nm = lib.db_unit_nm;
        let mut out: Vec<GerberCommand> = Vec::new();
        out.push(GerberCommand::CoordinateFormat);
        out.push(GerberCommand::UnitMillimeters);
        out.push(GerberCommand::RegionMode(true));
        assert(out@ =~= header());
        let mut k: usize = 0;
        while k < self.regions.len()
            invariant
                k <= self.regions.len(),
                rs == self@,
                nm == lib.db_unit_nm,
                regions_commands(rs, nm, k as int) matches Ok(body) && out@ == header() + body,
                all_fit(out@),
            decreases self.regions.len() - k,
        {
            let points = &self.regions[k].points;
            assert(points@ == rs[k as int]);
            if points.len() == 0 {
                proof {
                    lemma_emit_error_stays(rs, nm, k + 1, rs.len() as int);
                }
                return Err(EmitError::EmptyRegion);
            }
            let ghost before = out@;
            let x0 = coord_from_gds(points[0].x, lib);
            let y0 = coord_from_gds(points[0].y, lib);
            match (x0, y0) {
                (Ok(x), Ok(y)) => out.push(GerberCommand::Move(x, y)),
                _ => {
                    proof {
                        lemma_emit_error_stays(rs, nm, k + 1, rs.len() as int);
                    }
                    return Err(EmitError::CoordinateRange);
                },
            }
            let mut i: usize = 0;
            while i < points.len()
                invariant
                    i <= points.len(),
                    k < rs.len(),
                    rs == self@,
                    points@ == rs[k as int],
                    points@.len() > 0,
                    nm == lib.db_unit_nm,
                    regions_commands(rs, nm, k as int) is Ok,
                    all_fit(out@),
                    coord_fits(coord_value(points@[0].x, nm)),
                    coord_fits(coord_value(points@[0].y, nm)),
                    out@ == before + seq![
                        GerberCommand::Move(
                            coord_value(points@[0].x, nm) as i64,
                            coord_value(points@[0].y, nm) as i64,
                        ),
                    ] + points@.subrange(0, i as int).map_values(|p: Point| interpolate_to(p, nm)),
                    region_in_range(points@.subrange(0, i as int), nm),
                decreases points.len() - i,
            {
                match (coord_from_gds(points[i].x, lib), coord_from_gds(points[i].y, lib)) {
                    (Ok(x), Ok(y)) => {
                        out.push(GerberCommand::Interpolate(x, y));
                        proof {
                            lemma_range_step(points@, i as int, nm);
                        }
                        i += 1;
                    },
                    _ => {
                        proof {
                            lemma_emit_error_stays(rs, nm, k + 1, rs.len() as int);
                        }
                        return Err(EmitError::CoordinateRange);
                    },
                }
            }
            proof {
                assert(points@.subrange(0, i as int) =~= points@);
                let body = regions_commands(rs, nm, k as int)->Ok_0;
                assert(out@ =~= header() + (body + region_commands(rs[k as int], nm)));
            }
            k += 1;
        }
        out.push(GerberCommand::RegionMode(false));
        out.push(GerberCommand::EndOfFile);
        proof {
            let body = regions_commands(rs, nm, k as int)->Ok_0;
            assert(out@ =~= header() + body + footer());
        }
        Ok(out)
    }

    /// The Gerber file of this pattern, with coordinates scaled by the
    /// library's database unit.
    pub fn write_gerber(&self, lib: &Library) -> (r: Result<Vec<u8>, EmitError>)
        ensures
            emits(self@, lib.db_unit_nm, r),
    {
        let cmds = self.gerber_commands(lib)?;
        encode_commands(&cmds)
    }
}

} // verus!
