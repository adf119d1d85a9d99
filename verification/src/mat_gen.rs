//! Grid topology and assembly of the linear system.

use vstd::prelude::*;
use crate::lattice::{band_start, coord_at, is_interior, rank, unknown_count};
use crate::lattice::{
    lemma_band_start_ends, lemma_band_start_step, lemma_coord_at_rank, lemma_rank_coord_at,
    lemma_rank_in_range, lemma_width_headroom,
};

verus! {

/// A boundary value in exact form. Evaluating it in floating point is left to
/// the caller.
#[derive(Clone, Copy, Debug, PartialEq, Eq)]
pub enum BoundaryValue {
    /// The number `base + slope * num / den`.
    Linear { base: i32, slope: i32, num: usize, den: usize },
    /// The number `amplitude * sin(num * pi / den)`.
    Sine { amplitude: i32, num: usize, den: usize },
}

/// What is known of a lattice coordinate.
#[derive(Clone, Copy, Debug, PartialEq, Eq)]
pub enum PointInfo {
    /// A point on an edge of the triangle, with its fixed value.
    Value(BoundaryValue),
    /// An unknown, with its position in the solution vector.
    Unknown(usize),
    /// A coordinate outside the triangle.
    Undefined,
}

/// Value on the left edge, `x = 0`: falls from 10 at the origin to 0 at the
/// top corner.
pub open spec fn left_edge_value(width: int, y: int) -> BoundaryValue {
    BoundaryValue::Linear { base: 10, slope: (-10) as i32, num: y as usize, den: (width + 2) as usize }
}

/// Value on the bottom edge, `y = 0`: rises from 10 at the origin to 30 at the
/// right corner.
pub open spec fn bottom_edge_value(width: int, x: int) -> BoundaryValue {
    BoundaryValue::Linear { base: 10, slope: 20, num: x as usize, den: (width + 2) as usize }
}

/// Value on the hypotenuse, `x + y = width + 2`: a quarter sine wave of
/// amplitude 30 along `x`.
pub open spec fn hypotenuse_value(width: int, x: int) -> BoundaryValue {
    BoundaryValue::Sine { amplitude: 30, num: x as usize, den: (2 * (width + 2)) as usize }
}

/// The value that the edges fix at `(x, y)`, if the point lies on one. Where
/// two edges meet, the left edge goes before the bottom edge, and both go
/// before the hypotenuse.
pub open spec fn edge_value(width: int, x: int, y: int) -> Option<BoundaryValue> {
    if x == 0 {
        Some(left_edge_value(width, y))
    } else if y == 0 {
        Some(bottom_edge_value(width, x))
    } else if x + y == width + 2 {
        Some(hypotenuse_value(width, x))
    } else {
        None
    }
}

/// Classification of the coordinate `(x, y)` on a lattice of the given width.
pub open spec fn classify(width: int, x: int, y: int) -> PointInfo {
    if is_interior(width, x, y) {
        PointInfo::Unknown(rank(width, x, y) as usize)
    } else {
        match edge_value(width, x, y) {
            Some(v) => PointInfo::Value(v),
            None => PointInfo::Undefined,
        }
    }
}

/// Coordinate of the unknown with the given index, if there is one.
pub open spec fn locate(width: int, index: int) -> Option<(usize, usize)> {
    if 0 <= index < unknown_count(width) {
        Some((coord_at(width, index).0 as usize, coord_at(width, index).1 as usize))
    } else {
        None
    }
}

/// Whether two coordinates are one step apart along one axis.
pub open spec fn adjacent(a: (int, int), b: (int, int)) -> bool {
    ||| a.1 == b.1 && (a.0 == b.0 + 1 || b.0 == a.0 + 1)
    ||| a.0 == b.0 && (a.1 == b.1 + 1 || b.1 == a.1 + 1)
}

/// Coefficient of unknown `j` in the equation of unknown `i`: the stencil
/// weighs the point itself with 4 and each neighbouring unknown with -1.
pub open spec fn coefficient(width: int, i: int, j: int) -> int {
    if i == j {
        4
    } else if adjacent(coord_at(width, i), coord_at(width, j)) {
        -1
    } else {
        0
    }
}

/// What the point `(x, y)` adds to the right-hand side of a neighbour's
/// equation: its value where it lies on an edge, and nothing otherwise.
pub open spec fn edge_term(width: int, x: int, y: int) -> Seq<BoundaryValue> {
    match classify(width, x, y) {
        PointInfo::Value(v) => seq![v],
        _ => Seq::empty(),
    }
}

/// The terms whose sum is the right-hand side of the equation of unknown `i`:
/// the values of its neighbours on the edges, in the order west, east, south,
/// north.
pub open spec fn boundary_terms(width: int, i: int) -> Seq<BoundaryValue> {
    let (x, y) = coord_at(width, i);
    edge_term(width, x - 1, y) + edge_term(width, x + 1, y) + edge_term(width, x, y - 1)
        + edge_term(width, x, y + 1)
}

/// The band table of `x = band + 1` holds the index of each of its unknowns
/// under `y - 1`.
spec fn band_matches(width: int, band: int, row: Seq<usize>) -> bool {
    &&& row.len() == width - band
    &&& forall|t: int| 0 <= t < row.len() ==> #[trigger] row[t] == rank(width, band + 1, t + 1)
}

/// The coordinate table holds the coordinate of each unknown under its index.
spec fn coords_match(width: int, coords: Seq<(usize, usize)>) -> bool {
    forall|k: int|
        0 <= k < coords.len() ==> (#[trigger] coords[k]).0 == coord_at(width, k).0 && coords[k].1
            == coord_at(width, k).1
}

/// Both lookup tables are complete for the given width and agree with the
/// numbering scheme.
spec fn tables_match(width: int, bands: Seq<Vec<usize>>, coords: Seq<(usize, usize)>) -> bool {
    &&& bands.len() == width
    &&& forall|b: int| 0 <= b < bands.len() ==> band_matches(width, b, (#[trigger] bands[b])@)
    &&& coords.len() == unknown_count(width)
    &&& coords_match(width, coords)
}

/// Where two edges meet, the edge that is tried first decides: every point
/// with `x = 0` has the value of the left edge, the origin and the top corner
/// included, and every other point with `y = 0` has that of the bottom edge,
/// the right corner included.
pub proof fn lemma_edge_precedence(width: int, x: int, y: int)
    requires
        0 <= width,
        0 <= x,
        0 <= y,
    ensures
        x == 0 ==> classify(width, x, y) == PointInfo::Value(left_edge_value(width, y)),
        x != 0 && y == 0 ==> classify(width, x, y) == PointInfo::Value(
            bottom_edge_value(width, x),
        ),
{
}

/// The stencil never leaves the triangle: each of the four neighbours of an
/// unknown is an unknown itself or lies on an edge.
pub proof fn lemma_neighbors_classified(width: int, x: int, y: int)
    requires
        is_interior(width, x, y),
    ensures
        classify(width, x - 1, y) != PointInfo::Undefined,
        classify(width, x + 1, y) != PointInfo::Undefined,
        classify(width, x, y - 1) != PointInfo::Undefined,
        classify(width, x, y + 1) != PointInfo::Undefined,
{
}

/// The indices of the neighbours of an unknown fit the equation's row.
proof fn lemma_neighbor_ranks(width: int, x: int, y: int)
    requires
        is_interior(width, x, y),
    ensures
        is_interior(width, x - 1, y) ==> 0 <= rank(width, x - 1, y) < unknown_count(width),
        is_interior(width, x + 1, y) ==> 0 <= rank(width, x + 1, y) < unknown_count(width),
        is_interior(width, x, y - 1) ==> 0 <= rank(width, x, y - 1) < unknown_count(width),
        is_interior(width, x, y + 1) ==> 0 <= rank(width, x, y + 1) < unknown_count(width),
{
    if is_interior(width, x - 1, y) {
        lemma_rank_in_range(width, x - 1, y);
    }
    if is_interior(width, x + 1, y) {
        lemma_rank_in_range(width, x + 1, y);
    }
    if is_interior(width, x, y - 1) {
        lemma_rank_in_range(width, x, y - 1);
    }
    if is_interior(width, x, y + 1) {
        lemma_rank_in_range(width, x, y + 1);
    }
}

/// Whether `(x, y)` is the unknown with index `j`.
spec fn is_unknown(width: int, x: int, y: int, j: int) -> bool {
    is_interior(width, x, y) && rank(width, x, y) == j
}

/// Unknown `j` is among the four neighbours of unknown `i` exactly if the two
/// are adjacent, and unknown `i` is not its own neighbour.
proof fn lemma_stencil_row(width: int, i: int, j: int)
    requires
        0 <= width,
        0 <= i < unknown_count(width),
        0 <= j < unknown_count(width),
    ensures
        ({
            let (x, y) = coord_at(width, i);
            &&& is_interior(width, x, y)
            &&& i == j ==> !is_unknown(width, x - 1, y, j) && !is_unknown(width, x + 1, y, j)
                && !is_unknown(width, x, y - 1, j) && !is_unknown(width, x, y + 1, j)
            &&& i != j ==> (adjacent(coord_at(width, i), coord_at(width, j)) <==> {
                ||| is_unknown(width, x - 1, y, j)
                ||| is_unknown(width, x + 1, y, j)
                ||| is_unknown(width, x, y - 1, j)
                ||| is_unknown(width, x, y + 1, j)
            })
        }),
{
    let (x, y) = coord_at(width, i);
    lemma_rank_coord_at(width, i);
    lemma_rank_coord_at(width, j);
    if is_interior(width, x - 1, y) {
        lemma_coord_at_rank(width, x - 1, y);
    }
    if is_interior(width, x + 1, y) {
        lemma_coord_at_rank(width, x + 1, y);
    }
    if is_interior(width, x, y - 1) {
        lemma_coord_at_rank(width, x, y - 1);
    }
    if is_interior(width, x, y + 1) {
        lemma_coord_at_rank(width, x, y + 1);
    }
}

/// The unknowns that stand in the equation of unknown `i` beside `i` itself.
pub open spec fn unknown_neighbors(width: int, i: int) -> Set<int> {
    Set::new(|j: int| 0 <= j < unknown_count(width) && coefficient(width, i, j) == -1)
}

/// `found`, and the index of `(x, y)` where that is an unknown.
spec fn with_unknown(found: Set<int>, width: int, x: int, y: int) -> Set<int> {
    if is_interior(width, x, y) {
        found.insert(rank(width, x, y))
    } else {
        found
    }
}

/// Every equation holds the whole stencil: each of the four neighbours of an
/// unknown is either an unknown with a coefficient in the matrix row or a
/// term of the right-hand side.
pub proof fn lemma_stencil_complete(width: int, i: int)
    requires
        0 <= width,
        0 <= i < unknown_count(width),
    ensures
        unknown_neighbors(width, i).finite(),
        unknown_neighbors(width, i).len() + boundary_terms(width, i).len() == 4,
{
    let (x, y) = coord_at(width, i);
    lemma_rank_coord_at(width, i);
    lemma_neighbor_ranks(width, x, y);
    let west = with_unknown(Set::empty(), width, x - 1, y);
    let east = with_unknown(west, width, x + 1, y);
    let south = with_unknown(east, width, x, y - 1);
    let north = with_unknown(south, width, x, y + 1);
    assert(unknown_neighbors(width, i) =~= north) by {
        assert forall|j: int| unknown_neighbors(width, i).contains(j) <==> north.contains(j) by {
            if 0 <= j < unknown_count(width) {
                lemma_stencil_row(width, i, j);
            }
        }
    }
    if is_interior(width, x - 1, y) {
        lemma_coord_at_rank(width, x - 1, y);
    }
    if is_interior(width, x + 1, y) {
        lemma_coord_at_rank(width, x + 1, y);
    }
    if is_interior(width, x, y - 1) {
        lemma_coord_at_rank(width, x, y - 1);
    }
    if is_interior(width, x, y + 1) {
        lemma_coord_at_rank(width, x, y + 1);
    }
    assert(west.finite() && west.len() + edge_term(width, x - 1, y).len() == 1);
    assert(east.finite() && east.len() + edge_term(width, x + 1, y).len() == west.len() + 1);
    assert(south.finite() && south.len() + edge_term(width, x, y - 1).len() == east.len() + 1);
    assert(north.finite() && north.len() + edge_term(width, x, y + 1).len() == south.len() + 1);
}

/// The unknowns of a triangular lattice and their numbering, as a pair of
/// lookup tables built once for a width.
#[derive(Debug, PartialEq)]
pub struct PointMap {
    width: usize,
    axes_to_index: Vec<Vec<usize>>,
    indices_to_axis: Vec<(usize, usize)>,
}

impl PointMap {
    #[verifier::type_invariant]
    spec fn well_formed(&self) -> bool {
        &&& unknown_count(self.width as int) <= usize::MAX
        &&& tables_match(self.width as int, self.axes_to_index@, self.indices_to_axis@)
    }

    /// The width that the map was built for.
    pub closed spec fn width(&self) -> int {
        self.width as int
    }

    /// The map of the empty lattice.
    pub fn new() -> (map: Self)
        ensures
            map.width() == 0,
    {
        PointMap { width: 0, axes_to_index: Vec::new(), indices_to_axis: Vec::new() }
    }

    /// The map of the lattice of the given width.
    pub fn with_width(width: usize) -> (map: Self)
        requires
            unknown_count(width as int) <= usize::MAX,
        ensures
            map.width() == width,
    {
        let (axes_to_index, indices_to_axis) = Self::generate_map(width);
        PointMap { width, axes_to_index, indices_to_axis }
    }

    /// Classifies the coordinate `(x, y)`: an unknown with its index, a point
    /// on an edge with its value, or neither. Coordinates more than three
    /// steps beyond the width are not accepted.
    pub fn get_point(&self, x: usize, y: usize) -> (info: PointInfo)
        requires
            x <= self.width() + 3,
            y <= self.width() + 3,
        ensures
            info == classify(self.width(), x as int, y as int),
    {
        proof {
            use_type_invariant(self);
            lemma_width_headroom(self.width as int);
        }
        if 1 <= x && x <= self.width && 1 <= y && y <= self.width + 1 - x {
            PointInfo::Unknown(self.axes_to_index[x - 1][y - 1])
        } else if let Some(v) = self.calc_point(x, y) {
            PointInfo::Value(v)
        } else {
            PointInfo::Undefined
        }
    }

    /// Coordinate of the unknown with index `idx`, or `None` where there is
    /// no such unknown.
    pub fn get_point_at(&self, idx: usize) -> (axis: Option<(usize, usize)>)
        ensures
            axis == locate(self.width(), idx as int),
    {
        proof {
            use_type_invariant(self);
        }
        if idx < self.indices_to_axis.len() {
            Some(self.indices_to_axis[idx])
        } else {
            None
        }
    }

    /// The value that the edges fix at `(x, y)`, tried in the order left
    /// edge, bottom edge, hypotenuse.
    fn calc_point(&self, x: usize, y: usize) -> (value: Option<BoundaryValue>)
        requires
            x <= self.width() + 3,
            y <= self.width() + 3,
        ensures
            value == edge_value(self.width(), x as int, y as int),
    {
        proof {
            use_type_invariant(self);
            lemma_width_headroom(self.width as int);
        }
        let span: usize = self.width + 2;
        if x == 0 {
            Some(BoundaryValue::Linear { base: 10, slope: -10, num: y, den: span })
        } else if y == 0 {
            Some(BoundaryValue::Linear { base: 10, slope: 20, num: x, den: span })
        } else if x <= span && y == span - x {
            Some(BoundaryValue::Sine { amplitude: 30, num: x, den: 2 * span })
        } else {
            None
        }
    }

    /// Enumerates the unknowns, `x` ascending and `y` descending, and fills
    /// both tables.
    fn generate_map(width: usize) -> (tables: (Vec<Vec<usize>>, Vec<(usize, usize)>))
        requires
            unknown_count(width as int) <= usize::MAX,
        ensures
            tables_match(width as int, tables.0@, tables.1@),
    {
        let mut bands: Vec<Vec<usize>> = Vec::new();
        let mut coords: Vec<(usize, usize)> = Vec::new();
        let mut i: usize = 0;
        let mut x: usize = 0;
        proof {
            lemma_band_start_ends(width as int);
        }
        while x < width
            invariant
                x <= width,
                unknown_count(width as int) <= usize::MAX,
                i == band_start(width as int, x + 1),
                coords.len() == i,
                coords_match(width as int, coords@),
                bands.len() == x,
                forall|b: int| 0 <= b < bands.len() ==> band_matches(width as int, b, (#[trigger] bands[b])@),
            decreases width - x,
        {
            let len: usize = width - x;
            let mut band: Vec<usize> = Vec::new();
            band.resize(len, 0);
            let mut y: usize = len;
            while y > 0
                invariant
                    x < width,
                    len == width - x,
                    y <= len,
                    unknown_count(width as int) <= usize::MAX,
                    i == band_start(width as int, x + 1) + (len - y),
                    coords.len() == i,
                    coords_match(width as int, coords@),
                    band.len() == len,
                    forall|t: int| y <= t < len ==> #[trigger] band[t] == rank(width as int, x + 1, t + 1),
                decreases y,
            {
                y -= 1;
                proof {
                    lemma_rank_in_range(width as int, x + 1, y + 1);
                    lemma_coord_at_rank(width as int, x + 1, y + 1);
                }
                band.set(y, i);
                coords.push((x + 1, y + 1));
                i += 1;
            }
            proof {
                lemma_band_start_step(width as int, x + 1);
            }
            bands.push(band);
            x += 1;
        }
        (bands, coords)
    }
}

/// Folds the neighbour `(x, y)` into one equation: an unknown gets the
/// coefficient -1 in `row`, a point on an edge adds its value to `terms`.
fn fold_neighbor(
    pmap: &PointMap,
    x: usize,
    y: usize,
    row: &mut Vec<i8>,
    terms: &mut Vec<BoundaryValue>,
)
    requires
        x <= pmap.width() + 3,
        y <= pmap.width() + 3,
        classify(pmap.width(), x as int, y as int) != PointInfo::Undefined,
        old(row).len() == unknown_count(pmap.width()),
    ensures
        match classify(pmap.width(), x as int, y as int) {
            PointInfo::Unknown(j) => j < old(row).len() && final(row)@ == old(row)@.update(
                j as int,
                -1i8,
            ) && final(terms)@ == old(terms)@,
            _ => final(row)@ == old(row)@ && final(terms)@ == old(terms)@ + edge_term(
                pmap.width(),
                x as int,
                y as int,
            ),
        },
{
    match pmap.get_point(x, y) {
        PointInfo::Value(v) => {
            terms.push(v);
        },
        PointInfo::Unknown(idx) => {
            proof {
                lemma_rank_in_range(pmap.width(), x as int, y as int);
            }
            row.set(idx, -1);
        },
        PointInfo::Undefined => {
            assert(false);
        },
    }
}

/// Assembles the system `A u = b` of the lattice of the given width. Returns
/// `A` as a dense matrix of integer coefficients and `b` in exact form: one
/// list of boundary terms per equation, whose sum is the right-hand side.
pub fn generate_mat(width: usize) -> (system: (Vec<Vec<i8>>, Vec<Vec<BoundaryValue>>))
    requires
        unknown_count(width as int) <= usize::MAX,
    ensures
        system.0.len() == unknown_count(width as int),
        system.1.len() == unknown_count(width as int),
        forall|i: int| 0 <= i < system.0.len() ==> (#[trigger] system.0[i]).len() == system.0.len(),
        forall|i: int| 0 <= i < system.0.len() ==> (#[trigger] system.0[i])[i] == 4,
        forall|i: int, j: int|
            0 <= i < system.0.len() && 0 <= j < system.0.len() && i != j ==> #[trigger] system.0[i][j]
                == 0 || system.0[i][j] == -1,
        forall|i: int, j: int|
            0 <= i < system.0.len() && 0 <= j < system.0.len() ==> #[trigger] system.0[i][j]
                == coefficient(width as int, i, j),
        forall|i: int|
            0 <= i < system.1.len() ==> (#[trigger] system.1[i])@ == boundary_terms(width as int, i),
{
    let pmap = PointMap::with_width(width);
    proof {
        use_type_invariant(&pmap);
        lemma_width_headroom(width as int);
    }
    let items: usize = pmap.indices_to_axis.len();
    let mut a: Vec<Vec<i8>> = Vec::new();
    let mut b: Vec<Vec<BoundaryValue>> = Vec::new();
    let mut i: usize = 0;
    while i < items
        invariant
            i <= items,
            items == unknown_count(width as int),
            pmap.width() == width,
            2 * width + 6 <= usize::MAX,
            a.len() == i,
            b.len() == i,
            forall|k: int| 0 <= k < i ==> (#[trigger] a[k]).len() == items,
            forall|k: int, j: int|
                0 <= k < i && 0 <= j < items ==> #[trigger] a[k][j] == coefficient(width as int, k, j),
            forall|k: int| 0 <= k < i ==> (#[trigger] b[k])@ == boundary_terms(width as int, k),
        decreases items - i,
    {
        let (x, y) = pmap.get_point_at(i).unwrap();
        proof {
            lemma_rank_coord_at(width as int, i as int);
        }
        let mut row: Vec<i8> = Vec::new();
        row.resize(items, 0);
        row.set(i, 4);
        let mut terms: Vec<BoundaryValue> = Vec::new();
        fold_neighbor(&pmap, x - 1, y, &mut row, &mut terms);
        fold_neighbor(&pmap, x + 1, y, &mut row, &mut terms);
        fold_neighbor(&pmap, x, y - 1, &mut row, &mut terms);
        fold_neighbor(&pmap, x, y + 1, &mut row, &mut terms);
        proof {
            assert(terms@ =~= boundary_terms(width as int, i as int));
            lemma_neighbor_ranks(width as int, x as int, y as int);
            assert forall|j: int| 0 <= j < items implies #[trigger] row[j] == coefficient(
                width as int,
                i as int,
                j,
            ) by {
                lemma_stencil_row(width as int, i as int, j);
            }
        }
        a.push(row);
        b.push(terms);
        i += 1;
    }
    (a, b)
}

impl Clone for PointMap {
    /// The tables are a function of the width, so the copy is built anew.
    fn clone(&self) -> (map: Self)
        ensures
            map.width() == self.width(),
    {
        proof {
            use_type_invariant(self);
        }
        PointMap::with_width(self.width)
    }
}

} // verus!
