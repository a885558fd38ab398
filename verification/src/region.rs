//! Which places of a snapshot belong to a region.
//!
//! Whether a shape contains a coordinate is decided outside this library;
//! it is handed in as one answer for each row of the snapshot.

use crate::element::rows;
use crate::element::Element;
use crate::element::RowView;
use vstd::prelude::*;

verus! {

/// The kind of a shape in the boundary of a region.
#[derive(Clone, Copy, Debug, PartialEq, Eq, Structural)]
pub enum GeometryKind {
    Polygon,
    MultiPolygon,
    LineString,
    /// Any other kind: such a shape matches nothing.
    Other,
}

/// One shape of a boundary, with the answer of the geometry test for each
/// row of the snapshot: `contains[e]` says whether the shape contains the
/// coordinate of the row at `e`. A row without an answer is not contained.
#[derive(Clone, Debug)]
pub struct Geometry {
    pub kind: GeometryKind,
    pub contains: Vec<bool>,
}

/// The boundary of a region.
#[derive(Clone, Debug)]
pub enum Boundary {
    /// No boundary: the region is the whole dataset.
    Everywhere,
    /// The region is what at least one of the shapes contains.
    Shapes(Vec<Geometry>),
}

/// The shape contains the row at `e`.
pub open spec fn geometry_holds(shape: Geometry, e: int) -> bool {
    &&& shape.kind != GeometryKind::Other
    &&& 0 <= e < shape.contains@.len()
    &&& shape.contains@[e]
}

/// At least one of the shapes contains the row at `e`.
pub open spec fn shapes_hold(shapes: Seq<Geometry>, e: int) -> bool {
    exists|g: int| 0 <= g < shapes.len() && geometry_holds(#[trigger] shapes[g], e)
}

/// The boundary contains the row at `e`.
pub open spec fn boundary_holds(boundary: Boundary, e: int) -> bool {
    match boundary {
        Boundary::Everywhere => true,
        Boundary::Shapes(shapes) => shapes_hold(shapes@, e),
    }
}

/// The row at `e` counts for the region: it is live and within the boundary.
pub open spec fn is_member(boundary: Boundary, snapshot: Seq<RowView>) -> spec_fn(int) -> bool {
    |e: int| !snapshot[e].is_deleted() && boundary_holds(boundary, e)
}

/// The items whose place `keep` accepts, in their order.
pub open spec fn picked<T>(items: Seq<T>, keep: spec_fn(int) -> bool) -> Seq<T>
    decreases items.len(),
{
    if items.len() == 0 {
        Seq::empty()
    } else if keep(items.len() - 1) {
        picked(items.drop_last(), keep).push(items.last())
    } else {
        picked(items.drop_last(), keep)
    }
}

/// The rows that a list of borrowed rows holds.
pub open spec fn borrowed_rows(items: Seq<&Element>) -> Seq<RowView> {
    items.map_values(|e: &Element| e@)
}

impl Geometry {
    /// Whether the shape contains the row at `e`.
    pub fn holds(&self, e: usize) -> (inside: bool)
        ensures
            inside == geometry_holds(*self, e as int),
    {
        match self.kind {
            GeometryKind::Other => false,
            _ => e < self.contains.len() && self.contains[e],
        }
    }
}

/// Whether at least one of the shapes contains the row at `e`.
pub fn any_shape_holds(shapes: &Vec<Geometry>, e: usize) -> (inside: bool)
    ensures
        inside == shapes_hold(shapes@, e as int),
{
    let mut g: usize = 0;
    while g < shapes.len()
        invariant
            g <= shapes@.len(),
            forall|h: int| 0 <= h < g ==> !geometry_holds(#[trigger] shapes@[h], e as int),
        decreases shapes@.len() - g,
    {
        if shapes[g].holds(e) {
            return true;
        }
        g += 1;
    }
    false
}

impl Boundary {
    /// Whether the boundary contains the row at `e`.
    pub fn holds(&self, e: usize) -> (inside: bool)
        ensures
            inside == boundary_holds(*self, e as int),
    {
        match self {
            Boundary::Everywhere => true,
            Boundary::Shapes(shapes) => any_shape_holds(shapes, e),
        }
    }
}

/// The rows of the snapshot that count for a region: the live rows within
/// its boundary, in the order of the snapshot.
pub fn region_elements<'a>(
    snapshot: &'a Vec<Element>,
    boundary: &Boundary,
) -> (members: Vec<&'a Element>)
    ensures
        borrowed_rows(members@) == picked(rows(snapshot@), is_member(*boundary, rows(snapshot@))),
{
    let ghost all = rows(snapshot@);
    let ghost keep = is_member(*boundary, all);
    let mut members: Vec<&'a Element> = Vec::new();
    let mut e: usize = 0;
    assert(borrowed_rows(members@) =~= picked(all.take(0), keep));
    while e < snapshot.len()
        invariant
            e <= snapshot@.len(),
            all == rows(snapshot@),
            keep == is_member(*boundary, all),
            borrowed_rows(members@) == picked(all.take(e as int), keep),
        decreases snapshot@.len() - e,
    {
        let row = &snapshot[e];
        assert(all[e as int] == row@);
        assert(all.take(e + 1).drop_last() =~= all.take(e as int));
        let ghost before = borrowed_rows(members@);
        if !row.is_deleted() && boundary.holds(e) {
            members.push(row);
            assert(borrowed_rows(members@) =~= before.push(row@));
        }
        e += 1;
    }
    assert(all.take(snapshot@.len() as int) =~= all);
    members
}

/// A region without a boundary holds every live row, whatever the shapes of
/// other regions say.
pub proof fn law_no_boundary_holds_every_live_row(snapshot: Seq<RowView>, e: int)
    ensures
        is_member(Boundary::Everywhere, snapshot)(e) == !snapshot[e].is_deleted(),
{
}

/// A row belongs to a bounded region exactly when it is live and at least
/// one polygon, multi-polygon or line of the boundary is answered to
/// contain it; shapes of other kinds never count.
pub proof fn law_membership_follows_the_answers(shapes: Vec<Geometry>, snapshot: Seq<RowView>, e: int)
    ensures
        is_member(Boundary::Shapes(shapes), snapshot)(e) == (!snapshot[e].is_deleted() && exists|
            g: int,
        |
            0 <= g < shapes@.len() && (#[trigger] shapes@[g]).kind != GeometryKind::Other && 0 <= e
                < shapes@[g].contains@.len() && shapes@[g].contains@[e]),
{
    if shapes_hold(shapes@, e) {
        let g = choose|g: int| 0 <= g < shapes@.len() && geometry_holds(#[trigger] shapes@[g], e);
        assert(shapes@[g].kind != GeometryKind::Other);
    }
    if exists|g: int|
        0 <= g < shapes@.len() && (#[trigger] shapes@[g]).kind != GeometryKind::Other && 0 <= e
            < shapes@[g].contains@.len() && shapes@[g].contains@[e] {
        let g = choose|g: int|
            0 <= g < shapes@.len() && (#[trigger] shapes@[g]).kind != GeometryKind::Other && 0 <= e
                < shapes@[g].contains@.len() && shapes@[g].contains@[e];
        assert(geometry_holds(shapes@[g], e));
    }
}

} // verus!
