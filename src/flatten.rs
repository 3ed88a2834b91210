//! Resolution of structure references into one flat pattern per layer.
use vstd::prelude::*;

use crate::geometry::{
    pattern_fits, regions_view, shift_pattern, Pattern, Point, Region,
};
use crate::geometry::{region_fits, shift_fits, shift_point};
use crate::layout::{first_named, lemma_first_named_bounds, Element, Library, Structure};

verus! {

/// Why a structure could not be flattened.
#[derive(Debug, Clone, Copy, PartialEq, Eq, Structural)]
pub enum FlattenError {
    /// The requested or a referenced structure is not in the library.
    StructureNotFound,
    /// An element kind other than boundary, reference or text was met.
    UnsupportedElement,
    /// References nest deeper than the library has structures: they form a cycle.
    ReferenceCycle,
    /// Moving a point by a reference offset left the `i32` range.
    CoordinateOverflow,
}

/// The regions of the first `k` elements of `elems` on `layer`, where
/// references may still nest `depth` levels deep.
pub open spec fn flat_elems(
    lib: Library,
    elems: Seq<Element>,
    layer: i16,
    depth: nat,
    k: int,
) -> Result<Seq<Seq<Point>>, FlattenError>
    decreases depth, k,
{
    if k <= 0 {
        Ok(Seq::empty())
    } else {
        match flat_elems(lib, elems, layer, depth, k - 1) {
            Err(e) => Err(e),
            Ok(acc) => match elems[k - 1] {
                Element::Boundary { layer: l, points } => {
                    if l == layer {
                        Ok(acc.push(points@))
                    } else {
                        Ok(acc)
                    }
                },
                Element::Text => Ok(acc),
                Element::Other => Err(FlattenError::UnsupportedElement),
                Element::StructRef { name, offset } => {
                    if depth == 0 {
                        Err(FlattenError::ReferenceCycle)
                    } else {
                        match first_named(lib.structures@, name@, 0) {
                            None => Err(FlattenError::StructureNotFound),
                            Some(j) => {
                                let sub = lib.structures@[j].elements@;
                                match flat_elems(lib, sub, layer, (depth - 1) as nat, sub.len() as int) {
                                    Err(e) => Err(e),
                                    Ok(rs) => {
                                        if pattern_fits(rs, offset) {
                                            Ok(acc + shift_pattern(rs, offset))
                                        } else {
                                            Err(FlattenError::CoordinateOverflow)
                                        }
                                    },
                                }
                            },
                        }
                    }
                },
            },
        }
    }
}

/// The regions of all elements of structure `j` on `layer`.
pub open spec fn flat_structure(lib: Library, j: int, layer: i16, depth: nat) -> Result<
    Seq<Seq<Point>>,
    FlattenError,
> {
    let elems = lib.structures@[j].elements@;
    flat_elems(lib, elems, layer, depth, elems.len() as int)
}

/// What flattening the structure named `name` on `layer` gives: its regions
/// in absolute coordinates, in the order in which they are found.
pub open spec fn flattened(lib: Library, name: Seq<char>, layer: i16) -> Result<
    Seq<Seq<Point>>,
    FlattenError,
> {
    match first_named(lib.structures@, name, 0) {
        None => Err(FlattenError::StructureNotFound),
        Some(j) => flat_structure(lib, j, layer, lib.structures@.len() as nat),
    }
}

pub open spec fn pattern_result(r: Result<Pattern, FlattenError>) -> Result<
    Seq<Seq<Point>>,
    FlattenError,
> {
    match r {
        Ok(p) => Ok(p@),
        Err(e) => Err(e),
    }
}

proof fn lemma_error_stays(
    lib: Library,
    elems: Seq<Element>,
    layer: i16,
    depth: nat,
    k: int,
    m: int,
)
    requires
        1 <= k <= m,
        flat_elems(lib, elems, layer, depth, k) is Err,
    ensures
        flat_elems(lib, elems, layer, depth, m) == flat_elems(lib, elems, layer, depth, k),
    decreases m - k,
{
    if k < m {
        lemma_error_stays(lib, elems, layer, depth, k, m - 1);
    }
}

fn flatten_at(lib: &Library, j: usize, layer: i16, depth: usize) -> (r: Result<
    Pattern,
    FlattenError,
>)
    requires
        j < lib.structures.len(),
    ensures
        pattern_result(r) == flat_structure(*lib, j as int, layer, depth as nat),
    decreases depth,
{
    let elems = &lib.structures[j].elements;
    let ghost es = elems@;
    let mut regions: Vec<Region> = Vec::new();
    let mut k: usize = 0;
    assert(regions_view(regions@) =~= Seq::<Seq<Point>>::empty());
    while k < elems.len()
        invariant
            k <= elems.len(),
            j < lib.structures.len(),
            es == elems@,
            es == lib.structures@[j as int].elements@,
            flat_elems(*lib, es, layer, depth as nat, k as int) == Ok::<
                Seq<Seq<Point>>,
                FlattenError,
            >(regions_view(regions@)),
        decreases elems.len() - k,
    {
        let ghost before = regions@;
        let step: Result<(), FlattenError> = match &elems[k] {
            Element::Boundary { layer: l, points } => {
                if *l == layer {
                    let region = Region::from_points(points);
                    regions.push(region);
                    assert(regions_view(regions@) =~= regions_view(before).push(points@));
                }
                Ok(())
            },
            Element::Text => Ok(()),
            Element::Other => Err(FlattenError::UnsupportedElement),
            Element::StructRef { name, offset } => {
                if depth == 0 {
                    Err(FlattenError::ReferenceCycle)
                } else {
                    match lib.find(name) {
                        None => Err(FlattenError::StructureNotFound),
                        Some(i) => {
                            proof {
                                lemma_first_named_bounds(lib.structures@, name@, 0);
                            }
                            match flatten_at(lib, i, layer, depth - 1) {
                                Err(e) => Err(e),
                                Ok(sub) => match sub.translated(*offset) {
                                    None => Err(FlattenError::CoordinateOverflow),
                                    Some(mut t) => {
                                        let ghost tv = t@;
                                        regions.append(&mut t.regions);
                                        assert(regions_view(regions@) =~= regions_view(before)
                                            + tv);
                                        Ok(())
                                    },
                                },
                            }
                        },
                    }
                }
            },
        };
        match step {
            Err(e) => {
                proof {
                    lemma_error_stays(*lib, es, layer, depth as nat, k + 1, es.len() as int);
                }
                return Err(e);
            },
            Ok(()) => {},
        }
        k += 1;
    }
    Ok(Pattern { regions })
}

impl Pattern {
    /// Flattens the structure named `name` for `layer`: every boundary on
    /// that layer, and every boundary that references reach, moved by the sum
    /// of the offsets on the way, in the order in which they are found.
    pub fn from_gds_struct(lib: &Library, name: &String, layer: i16) -> (r: Result<
        Pattern,
        FlattenError,
    >)
        ensures
            pattern_result(r) == flattened(*lib, name@, layer),
    {
        match lib.find(name) {
            None => Err(FlattenError::StructureNotFound),
            Some(j) => {
                proof {
                    lemma_first_named_bounds(lib.structures@, name@, 0);
                }
                flatten_at(lib, j, layer, lib.structures.len())
            },
        }
    }
}

/// The point sequences of the boundaries on `layer` among the first `k`
/// elements of `elems`, in order.
pub open spec fn boundaries_on(elems: Seq<Element>, layer: i16, k: int) -> Seq<Seq<Point>>
    decreases k,
{
    if k <= 0 {
        Seq::empty()
    } else {
        let acc = boundaries_on(elems, layer, k - 1);
        match elems[k - 1] {
            Element::Boundary { layer: l, points } => if l == layer {
                acc.push(points@)
            } else {
                acc
            },
            _ => acc,
        }
    }
}

/// Whether `elems` holds only boundaries and text.
pub open spec fn without_references(elems: Seq<Element>) -> bool {
    forall|i: int| 0 <= i < elems.len() ==> #[trigger] elems[i] is Boundary || elems[i] is Text
}

proof fn lemma_plain_elems(lib: Library, elems: Seq<Element>, layer: i16, depth: nat, k: int)
    requires
        0 <= k <= elems.len(),
        without_references(elems),
    ensures
        flat_elems(lib, elems, layer, depth, k) == Ok::<Seq<Seq<Point>>, FlattenError>(
            boundaries_on(elems, layer, k),
        ),
    decreases k,
{
    if k > 0 {
        lemma_plain_elems(lib, elems, layer, depth, k - 1);
        assert(elems[k - 1] is Boundary || elems[k - 1] is Text);
    }
}

/// Flattening a structure that holds no references gives exactly its
/// boundaries on the requested layer, in stored order: a boundary is there
/// if and only if its layer is the one asked for.
pub proof fn lemma_layer_filter(lib: Library, name: Seq<char>, layer: i16)
    requires
        first_named(lib.structures@, name, 0) is Some,
        without_references(
            lib.structures@[first_named(lib.structures@, name, 0)->Some_0].elements@,
        ),
    ensures
        flattened(lib, name, layer) == Ok::<Seq<Seq<Point>>, FlattenError>(
            boundaries_on(
                lib.structures@[first_named(lib.structures@, name, 0)->Some_0].elements@,
                layer,
                lib.structures@[first_named(
                    lib.structures@,
                    name,
                    0,
                )->Some_0].elements@.len() as int,
            ),
        ),
{
    let j = first_named(lib.structures@, name, 0)->Some_0;
    let elems = lib.structures@[j].elements@;
    lemma_plain_elems(lib, elems, layer, lib.structures@.len() as nat, elems.len() as int);
}

/// Wherever a boundary stands among a structure's elements, it adds its
/// vertices as one region exactly when its layer is the requested one, and
/// adds nothing otherwise.
pub proof fn lemma_boundary_layer(
    lib: Library,
    elems: Seq<Element>,
    layer: i16,
    depth: nat,
    k: int,
)
    requires
        1 <= k <= elems.len(),
        elems[k - 1] is Boundary,
        flat_elems(lib, elems, layer, depth, k - 1) is Ok,
    ensures
        flat_elems(lib, elems, layer, depth, k) == Ok::<Seq<Seq<Point>>, FlattenError>(
            if elems[k - 1]->Boundary_layer == layer {
                flat_elems(lib, elems, layer, depth, k - 1)->Ok_0.push(
                    elems[k - 1]->Boundary_points@,
                )
            } else {
                flat_elems(lib, elems, layer, depth, k - 1)->Ok_0
            },
        ),
{
}

proof fn lemma_all_on_layer(elems: Seq<Element>, layer: i16, k: int)
    requires
        0 <= k <= elems.len(),
        forall|i: int| 0 <= i < elems.len() ==> (#[trigger] elems[i] matches Element::Boundary { layer: l, .. } && l == layer),
    ensures
        boundaries_on(elems, layer, k) == elems.subrange(0, k).map_values(
            |e: Element| e->Boundary_points@,
        ),
    decreases k,
{
    if k > 0 {
        lemma_all_on_layer(elems, layer, k - 1);
        assert(elems[k - 1] is Boundary);
        assert(elems.subrange(0, k) =~= elems.subrange(0, k - 1).push(elems[k - 1]));
        assert(elems.subrange(0, k).map_values(|e: Element| e->Boundary_points@) =~= elems.subrange(
            0,
            k - 1,
        ).map_values(|e: Element| e->Boundary_points@).push(elems[k - 1]->Boundary_points@));
    } else {
        assert(elems.subrange(0, k).map_values(|e: Element| e->Boundary_points@) =~= Seq::empty());
    }
}

/// A structure made only of boundaries on the requested layer flattens to
/// one region per boundary, each with the boundary's vertices unchanged.
pub proof fn lemma_single_layer(lib: Library, name: Seq<char>, layer: i16)
    requires
        first_named(lib.structures@, name, 0) is Some,
        forall|i: int|
            0 <= i < lib.structures@[first_named(lib.structures@, name, 0)->Some_0].elements@.len()
                ==> (#[trigger] lib.structures@[first_named(
                lib.structures@,
                name,
                0,
            )->Some_0].elements@[i] matches Element::Boundary { layer: l, .. } && l == layer),
    ensures
        flattened(lib, name, layer) == Ok::<Seq<Seq<Point>>, FlattenError>(
            lib.structures@[first_named(lib.structures@, name, 0)->Some_0].elements@.map_values(
                |e: Element| e->Boundary_points@,
            ),
        ),
{
    let j = first_named(lib.structures@, name, 0)->Some_0;
    let elems = lib.structures@[j].elements@;
    assert(without_references(elems)) by {
        assert forall|i: int| 0 <= i < elems.len() implies #[trigger] elems[i] is Boundary
            || elems[i] is Text by {
            assert(elems[i] matches Element::Boundary { layer: l, .. } && l == layer);
        }
    }
    lemma_layer_filter(lib, name, layer);
    lemma_all_on_layer(elems, layer, elems.len() as int);
    assert(elems.subrange(0, elems.len() as int) =~= elems);
}

proof fn lemma_first_named_none(s: Seq<Structure>, name: Seq<char>, i: int)
    requires
        0 <= i,
        forall|k: int| 0 <= k < s.len() ==> (#[trigger] s[k]).name@ != name,
    ensures
        first_named(s, name, i) is None,
    decreases s.len() - i,
{
    if i < s.len() {
        lemma_first_named_none(s, name, i + 1);
    }
}

/// Asking for a structure that the library does not hold fails with
/// `StructureNotFound`, and no regions come back.
pub proof fn lemma_missing_structure(lib: Library, name: Seq<char>, layer: i16)
    requires
        forall|k: int| 0 <= k < lib.structures@.len() ==> (#[trigger] lib.structures@[k]).name@ != name,
    ensures
        flattened(lib, name, layer) == Err::<Seq<Seq<Point>>, FlattenError>(
            FlattenError::StructureNotFound,
        ),
{
    lemma_first_named_none(lib.structures@, name, 0);
}

/// A reference with offset `d` to a structure that flattens to `rs`
/// contributes `rs` with every point moved by `d`, after what the elements
/// before it gave.
pub proof fn lemma_reference_offset(
    lib: Library,
    elems: Seq<Element>,
    layer: i16,
    depth: nat,
    k: int,
)
    requires
        1 <= k <= elems.len(),
        depth > 0,
        elems[k - 1] is StructRef,
        flat_elems(lib, elems, layer, depth, k - 1) is Ok,
        first_named(lib.structures@, elems[k - 1]->StructRef_name@, 0) is Some,
        flat_structure(
            lib,
            first_named(lib.structures@, elems[k - 1]->StructRef_name@, 0)->Some_0,
            layer,
            (depth - 1) as nat,
        ) is Ok,
        pattern_fits(
            flat_structure(
                lib,
                first_named(lib.structures@, elems[k - 1]->StructRef_name@, 0)->Some_0,
                layer,
                (depth - 1) as nat,
            )->Ok_0,
            elems[k - 1]->StructRef_offset,
        ),
    ensures
        flat_elems(lib, elems, layer, depth, k) == Ok::<Seq<Seq<Point>>, FlattenError>(
            flat_elems(lib, elems, layer, depth, k - 1)->Ok_0 + shift_pattern(
                flat_structure(
                    lib,
                    first_named(lib.structures@, elems[k - 1]->StructRef_name@, 0)->Some_0,
                    layer,
                    (depth - 1) as nat,
                )->Ok_0,
                elems[k - 1]->StructRef_offset,
            ),
        ),
{
}

/// Moving by `a` and then by `b` moves every point by the sum of the two
/// offsets: nested references add their offsets.
pub proof fn lemma_offsets_compose(rs: Seq<Seq<Point>>, a: Point, b: Point)
    requires
        pattern_fits(rs, a),
        pattern_fits(shift_pattern(rs, a), b),
    ensures
        shift_pattern(shift_pattern(rs, a), b).len() == rs.len(),
        forall|i: int|
            0 <= i < rs.len() ==> (#[trigger] shift_pattern(shift_pattern(rs, a), b)[i]).len()
                == rs[i].len(),
        forall|i: int, j: int|
            0 <= i < rs.len() && 0 <= j < rs[i].len() ==> {
                let p = #[trigger] shift_pattern(shift_pattern(rs, a), b)[i][j];
                &&& p.x == rs[i][j].x + a.x + b.x
                &&& p.y == rs[i][j].y + a.y + b.y
            },
{
    assert forall|i: int, j: int| 0 <= i < rs.len() && 0 <= j < rs[i].len() implies {
        let p = #[trigger] shift_pattern(shift_pattern(rs, a), b)[i][j];
        &&& p.x == rs[i][j].x + a.x + b.x
        &&& p.y == rs[i][j].y + a.y + b.y
    } by {
        assert(region_fits(rs[i], a));
        assert(shift_fits(rs[i][j], a));
        let s = shift_pattern(rs, a);
        assert(region_fits(s[i], b));
        assert(s[i][j] == shift_point(rs[i][j], a));
        assert(shift_fits(s[i][j], b));
    }
}

} // verus!
