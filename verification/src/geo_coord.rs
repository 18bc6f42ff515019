//! Coordinates, bounding boxes and the global grid.
//!
//! Latitudes and longitudes are measured in micro-degrees, so a latitude
//! lies in [-90_000_000, 90_000_000] and a longitude in
//! [-180_000_000, 180_000_000].

use vstd::prelude::*;
use vstd::arithmetic::div_mod::*;
use vstd::arithmetic::mul::*;

verus! {

/// Largest latitude, in micro-degrees (millionths of a degree).
pub const MICRO_LAT_MAX: i64 = 90_000_000;

/// Largest longitude, in micro-degrees.
pub const MICRO_LON_MAX: i64 = 180_000_000;

/// A (latitude, longitude) pair in micro-degrees.
///
/// Positive latitudes correspond to the northern hemisphere.  Higher
/// longitudes go towards the west and lower values towards the east.
#[derive(Clone, Copy, Debug, PartialEq, Eq, Structural)]
pub struct GeoCoord(pub i64, pub i64);

/// A latitude that lies on the globe.
pub open spec fn valid_lat(lat: int) -> bool {
    -(MICRO_LAT_MAX as int) <= lat <= MICRO_LAT_MAX as int
}

/// A longitude that lies on the globe.
pub open spec fn valid_lon(lon: int) -> bool {
    -(MICRO_LON_MAX as int) <= lon <= MICRO_LON_MAX as int
}

/// Clamping of an arbitrary integer into an interval.
pub open spec fn clamped(x: int, lo: int, hi: int) -> int {
    if x < lo {
        lo
    } else if x > hi {
        hi
    } else {
        x
    }
}

impl GeoCoord {
    /// Both components lie on the globe.
    pub open spec fn wf(self) -> bool {
        valid_lat(self.0 as int) && valid_lon(self.1 as int)
    }

    /// Pulls the coordinate back onto the globe.
    pub fn clamp(&self) -> (r: Self)
        ensures
            r.0 == clamped(self.0 as int, -(MICRO_LAT_MAX as int), MICRO_LAT_MAX as int),
            r.1 == clamped(self.1 as int, -(MICRO_LON_MAX as int), MICRO_LON_MAX as int),
            r.wf(),
    {
        let lat: i64 = if self.0 < -MICRO_LAT_MAX {
            -MICRO_LAT_MAX
        } else if self.0 > MICRO_LAT_MAX {
            MICRO_LAT_MAX
        } else {
            self.0
        };
        let lon: i64 = if self.1 < -MICRO_LON_MAX {
            -MICRO_LON_MAX
        } else if self.1 > MICRO_LON_MAX {
            MICRO_LON_MAX
        } else {
            self.1
        };
        GeoCoord(lat, lon)
    }
}

/// The midpoint of two integers, rounding towards the smaller one.
pub open spec fn mid_val(a: int, b: int) -> int {
    if a <= b {
        a + (b - a) / 2
    } else {
        b + (a - b) / 2
    }
}

proof fn lemma_mid_val_between(a: int, b: int)
    ensures
        a <= b ==> a <= mid_val(a, b) <= b,
        b <= a ==> b <= mid_val(a, b) <= a,
{
    if a <= b {
        lemma_div_nonneg_le(b - a);
    } else {
        lemma_div_nonneg_le(a - b);
    }
}

proof fn lemma_div_nonneg_le(d: int)
    requires
        0 <= d,
    ensures
        0 <= d / 2 <= d,
{
}

impl GeoCoord {
    /// The coordinate halfway between `self` and `other`, component-wise.
    pub fn mid(&self, other: &Self) -> (r: Self)
        requires
            self.wf(),
            other.wf(),
        ensures
            r.0 == mid_val(self.0 as int, other.0 as int),
            r.1 == mid_val(self.1 as int, other.1 as int),
            r.wf(),
    {
        proof {
            lemma_mid_val_between(self.0 as int, other.0 as int);
            lemma_mid_val_between(self.1 as int, other.1 as int);
        }
        let lat: i64 = if self.0 <= other.0 {
            self.0 + (other.0 - self.0) / 2
        } else {
            other.0 + (self.0 - other.0) / 2
        };
        let lon: i64 = if self.1 <= other.1 {
            self.1 + (other.1 - self.1) / 2
        } else {
            other.1 + (self.1 - other.1) / 2
        };
        GeoCoord(lat, lon)
    }

    /// The square tile of half-width `step_size` around `self`, clamped to
    /// the globe: its south-west and north-east corners.
    pub fn neighborhood(&self, step_size: i64) -> (r: (Self, Self))
        requires
            self.wf(),
            0 <= step_size <= MICRO_LON_MAX,
        ensures
            r.0.0 == clamped(self.0 - step_size, -(MICRO_LAT_MAX as int), MICRO_LAT_MAX as int),
            r.0.1 == clamped(self.1 - step_size, -(MICRO_LON_MAX as int), MICRO_LON_MAX as int),
            r.1.0 == clamped(self.0 + step_size, -(MICRO_LAT_MAX as int), MICRO_LAT_MAX as int),
            r.1.1 == clamped(self.1 + step_size, -(MICRO_LON_MAX as int), MICRO_LON_MAX as int),
            r.0.wf(),
            r.1.wf(),
            r.0.0 <= r.1.0,
            r.0.1 <= r.1.1,
    {
        (
            GeoCoord(self.0 - step_size, self.1 - step_size).clamp(),
            GeoCoord(self.0 + step_size, self.1 + step_size).clamp(),
        )
    }
}

/// An axis-aligned latitude/longitude rectangle, given by its south-west
/// and north-east corners.
#[derive(Clone, Copy, Debug, PartialEq, Eq, Structural)]
pub struct GeoBounds(pub GeoCoord, pub GeoCoord);

impl GeoBounds {
    /// Corners lie on the globe and are ordered.
    pub open spec fn wf(self) -> bool {
        &&& self.0.wf()
        &&& self.1.wf()
        &&& self.0.0 <= self.1.0
        &&& self.0.1 <= self.1.1
    }

    /// The point lies inside the rectangle (boundary included).
    pub open spec fn contains_spec(self, p: GeoCoord) -> bool {
        &&& self.0.0 <= p.0 <= self.1.0
        &&& self.0.1 <= p.1 <= self.1.1
    }

    /// Whether the point lies inside the rectangle.
    pub fn contains(&self, p: &GeoCoord) -> (r: bool)
        ensures
            r == self.contains_spec(*p),
    {
        self.0.0 <= p.0 && p.0 <= self.1.0 && self.0.1 <= p.1 && p.1 <= self.1.1
    }

    /// The centre of the rectangle.
    pub fn mid(&self) -> (r: GeoCoord)
        requires
            self.wf(),
        ensures
            r.0 == mid_val(self.0.0 as int, self.1.0 as int),
            r.1 == mid_val(self.0.1 as int, self.1.1 as int),
            r.wf(),
    {
        self.0.mid(&self.1)
    }

    /// The four quadrants of a rectangle, cut at its centre.
    pub open spec fn split_spec(self) -> Seq<GeoBounds> {
        let x0 = self.0.0 as int;
        let y0 = self.0.1 as int;
        let x1 = mid_val(self.0.0 as int, self.1.0 as int);
        let y1 = mid_val(self.0.1 as int, self.1.1 as int);
        let x2 = self.1.0 as int;
        let y2 = self.1.1 as int;
        seq![
            GeoBounds(GeoCoord(x0 as i64, y0 as i64), GeoCoord(x1 as i64, y1 as i64)),
            GeoBounds(GeoCoord(x1 as i64, y0 as i64), GeoCoord(x2 as i64, y1 as i64)),
            GeoBounds(GeoCoord(x0 as i64, y1 as i64), GeoCoord(x1 as i64, y2 as i64)),
            GeoBounds(GeoCoord(x1 as i64, y1 as i64), GeoCoord(x2 as i64, y2 as i64)),
        ]
    }

    /// Cuts the rectangle into four quadrants at its centre.
    pub fn split(&self) -> (r: [GeoBounds; 4])
        requires
            self.wf(),
        ensures
            r@ =~= self.split_spec(),
            forall|k: int| 0 <= k < 4 ==> (#[trigger] self.split_spec()[k]).wf(),
    {
        proof {
            lemma_mid_val_between(self.0.0 as int, self.1.0 as int);
            lemma_mid_val_between(self.0.1 as int, self.1.1 as int);
        }
        let m = self.mid();
        let x0 = self.0.0;
        let y0 = self.0.1;
        let x1 = m.0;
        let y1 = m.1;
        let x2 = self.1.0;
        let y2 = self.1.1;
        let r = [
            GeoBounds(GeoCoord(x0, y0), GeoCoord(x1, y1)),
            GeoBounds(GeoCoord(x1, y0), GeoCoord(x2, y1)),
            GeoBounds(GeoCoord(x0, y1), GeoCoord(x1, y2)),
            GeoBounds(GeoCoord(x1, y1), GeoCoord(x2, y2)),
        ];
        assert(r@ =~= self.split_spec());
        r
    }
}

/// The quadrants of a split cover their parent: every point of the parent
/// lies in at least one quadrant.
pub proof fn lemma_split_no_gaps(b: GeoBounds, p: GeoCoord)
    requires
        b.wf(),
        b.contains_spec(p),
    ensures
        exists|k: int| 0 <= k < 4 && (#[trigger] b.split_spec()[k]).contains_spec(p),
{
    lemma_mid_val_between(b.0.0 as int, b.1.0 as int);
    lemma_mid_val_between(b.0.1 as int, b.1.1 as int);
    let x1 = mid_val(b.0.0 as int, b.1.0 as int);
    let y1 = mid_val(b.0.1 as int, b.1.1 as int);
    let k = if p.0 <= x1 && p.1 <= y1 {
        0int
    } else if p.0 > x1 && p.1 <= y1 {
        1int
    } else if p.0 <= x1 {
        2int
    } else {
        3int
    };
    assert(b.split_spec()[k].contains_spec(p));
}

/// The quadrants of a split do not overlap, except on the two centre lines
/// they share: a point in two distinct quadrants lies on one of them.
pub proof fn lemma_split_no_overlap(b: GeoBounds, p: GeoCoord, k1: int, k2: int)
    requires
        b.wf(),
        0 <= k1 < 4,
        0 <= k2 < 4,
        k1 != k2,
        b.split_spec()[k1].contains_spec(p),
        b.split_spec()[k2].contains_spec(p),
    ensures
        p.0 == mid_val(b.0.0 as int, b.1.0 as int) || p.1 == mid_val(b.0.1 as int, b.1.1 as int),
{
}

/// The area of a rectangle, counting a unit square per micro-degree cell.
pub open spec fn area(b: GeoBounds) -> int {
    (b.1.0 - b.0.0) * (b.1.1 - b.0.1)
}

/// The four quadrants of a split have the same total area as their parent.
pub proof fn lemma_split_area(b: GeoBounds)
    requires
        b.wf(),
    ensures
        area(b.split_spec()[0]) + area(b.split_spec()[1]) + area(b.split_spec()[2]) + area(
            b.split_spec()[3],
        ) == area(b),
{
    let x0 = b.0.0 as int;
    let y0 = b.0.1 as int;
    let x1 = mid_val(b.0.0 as int, b.1.0 as int);
    let y1 = mid_val(b.0.1 as int, b.1.1 as int);
    let x2 = b.1.0 as int;
    let y2 = b.1.1 as int;
    assert((x1 - x0) * (y1 - y0) + (x2 - x1) * (y1 - y0) + (x1 - x0) * (y2 - y1) + (x2 - x1) * (y2
        - y1) == (x2 - x0) * (y2 - y0)) by (nonlinear_arith);
}

/// Number of latitude rows of the global grid: latitudes 0, step, ... below
/// 90 degrees, mirrored over both hemispheres.
pub open spec fn grid_rows(step: int) -> int {
    (MICRO_LAT_MAX + step - 1) / step
}

/// Number of longitude columns of the global grid: longitudes -180, -180 +
/// step, ... below 180 degrees.
pub open spec fn grid_cols(step: int) -> int {
    (2 * MICRO_LON_MAX + step - 1) / step
}

/// The grid tile centred on row `i`, column `j` of the given hemisphere,
/// expanded by a full step on every side and clamped to the globe.  The
/// expansion deliberately overlaps neighbouring tiles so that clamping at
/// the poles and the date line leaves no gaps.
pub open spec fn tile_at(step: int, i: int, j: int, south: bool) -> GeoBounds {
    let clat = if south {
        -i * step
    } else {
        i * step
    };
    let clon = -MICRO_LON_MAX + j * step;
    GeoBounds(
        GeoCoord(
            clamped(clat - step, -(MICRO_LAT_MAX as int), MICRO_LAT_MAX as int) as i64,
            clamped(clon - step, -(MICRO_LON_MAX as int), MICRO_LON_MAX as int) as i64,
        ),
        GeoCoord(
            clamped(clat + step, -(MICRO_LAT_MAX as int), MICRO_LAT_MAX as int) as i64,
            clamped(clon + step, -(MICRO_LON_MAX as int), MICRO_LON_MAX as int) as i64,
        ),
    )
}

/// Index of the pair of tiles (southern, then northern) for row `i`,
/// column `j` in the output of `globe`.
pub open spec fn pair_index(step: int, i: int, j: int) -> int {
    2 * (i * grid_cols(step) + j)
}

/// The sequence is exactly the global grid for the given step: one southern
/// and one northern tile for every row and column.
pub open spec fn grid_spec(step: int, tiles: Seq<GeoBounds>) -> bool {
    &&& tiles.len() == 2 * grid_rows(step) * grid_cols(step)
    &&& forall|i: int, j: int|
        0 <= i < grid_rows(step) && 0 <= j < grid_cols(step) ==> {
            &&& tiles[#[trigger] pair_index(step, i, j)] == tile_at(step, i, j, true)
            &&& tiles[pair_index(step, i, j) + 1] == tile_at(step, i, j, false)
        }
}

/// Division bounds: `x / s` names the row of `x` in a grid of step `s`.
proof fn lemma_div_step_bounds(x: int, s: int)
    requires
        0 <= x,
        1 <= s,
    ensures
        0 <= x / s,
        (x / s) * s <= x < (x / s) * s + s,
{
    lemma_fundamental_div_mod(x, s);
    lemma_mod_bound(x, s);
    lemma_div_pos_is_pos(x, s);
    lemma_mul_is_commutative(x / s, s);
}

/// The ceiling `(x + s - 1) / s` is the unique `q` with
/// `(q - 1) * s < x <= q * s`.
proof fn lemma_ceil_bounds(x: int, s: int)
    requires
        1 <= x,
        1 <= s,
    ensures
        1 <= (x + s - 1) / s,
        ((x + s - 1) / s) * s >= x,
        (((x + s - 1) / s) - 1) * s < x,
{
    let q = (x + s - 1) / s;
    lemma_div_step_bounds(x + s - 1, s);
    assert(q * s <= x + s - 1 < q * s + s);
    assert((q - 1) * s == q * s - s) by {
        lemma_mul_is_distributive_sub_other_way(s, q, 1);
    }
    if q < 1 {
        lemma_mul_inequality(q, 0, s);
        assert(q * s <= 0);
        assert(x + s - 1 < q * s + s <= s);
    }
}

/// Any `q` with `(q - 1) * s < x <= q * s` is the ceiling `(x + s - 1) / s`.
proof fn lemma_ceil_unique(x: int, s: int, q: int)
    requires
        1 <= x,
        1 <= s,
        q * s >= x,
        (q - 1) * s < x,
    ensures
        q == (x + s - 1) / s,
{
    let c = (x + s - 1) / s;
    lemma_ceil_bounds(x, s);
    if q < c {
        lemma_mul_inequality(q, c - 1, s);
        assert(q * s <= (c - 1) * s);
    }
    if q > c {
        lemma_mul_inequality(c, q - 1, s);
        assert(c * s <= (q - 1) * s);
    }
}

impl GeoBounds {
    /// The global grid of tiles for the given step size (in micro-degrees):
    /// tiles march over latitudes 0, step, ... below 90 degrees in both
    /// hemispheres and longitudes -180, -180 + step, ... below 180 degrees,
    /// each expanded by a full step on every side.
    #[verifier::loop_isolation(false)]
    pub fn globe(step_size: i64) -> (r: Vec<GeoBounds>)
        requires
            1 <= step_size <= MICRO_LON_MAX,
        ensures
            grid_spec(step_size as int, r@),
            forall|k: int| 0 <= k < r@.len() ==> (#[trigger] r@[k]).wf(),
    {
        let ghost step = step_size as int;
        let ghost cols = grid_cols(step);
        proof {
            lemma_ceil_bounds(2 * MICRO_LON_MAX as int, step);
            lemma_ceil_bounds(MICRO_LAT_MAX as int, step);
        }
        let mut all_regions: Vec<GeoBounds> = Vec::new();
        let mut lat: i64 = 0;
        let ghost mut i: int = 0;
        while lat < MICRO_LAT_MAX
            invariant
                0 <= i,
                lat == i * step,
                i == 0 || (i - 1) * step < MICRO_LAT_MAX,
                all_regions@.len() == 2 * (i * cols),
                forall|i2: int, j2: int|
                    0 <= i2 < i && 0 <= j2 < cols ==> {
                        &&& all_regions@[#[trigger] pair_index(step, i2, j2)] == tile_at(
                            step,
                            i2,
                            j2,
                            true,
                        )
                        &&& all_regions@[pair_index(step, i2, j2) + 1] == tile_at(
                            step,
                            i2,
                            j2,
                            false,
                        )
                    },
                forall|k: int| 0 <= k < all_regions@.len() ==> (#[trigger] all_regions@[k]).wf(),
            decreases MICRO_LAT_MAX + step_size - lat,
        {
            let mut lon: i64 = -MICRO_LON_MAX;
            let ghost mut j: int = 0;
            while lon < MICRO_LON_MAX
                invariant
                    0 <= j,
                    lat == i * step,
                    0 <= lat < MICRO_LAT_MAX,
                    lon == -MICRO_LON_MAX + j * step,
                    j == 0 || (j - 1) * step < 2 * MICRO_LON_MAX,
                    all_regions@.len() == 2 * (i * cols + j),
                    forall|i2: int, j2: int|
                        0 <= i2 < i && 0 <= j2 < cols ==> {
                            &&& all_regions@[#[trigger] pair_index(step, i2, j2)] == tile_at(
                                step,
                                i2,
                                j2,
                                true,
                            )
                            &&& all_regions@[pair_index(step, i2, j2) + 1] == tile_at(
                                step,
                                i2,
                                j2,
                                false,
                            )
                        },
                    forall|j2: int|
                        0 <= j2 < j ==> {
                            &&& all_regions@[#[trigger] pair_index(step, i, j2)] == tile_at(
                                step,
                                i,
                                j2,
                                true,
                            )
                            &&& all_regions@[pair_index(step, i, j2) + 1] == tile_at(
                                step,
                                i,
                                j2,
                                false,
                            )
                        },
                    forall|k: int|
                        0 <= k < all_regions@.len() ==> (#[trigger] all_regions@[k]).wf(),
                decreases MICRO_LON_MAX + step_size - lon,
            {
                proof {
                    if j > 0 {
                        lemma_mul_is_distributive_sub_other_way(step, j, 1);
                    }
                }
                let south = GeoCoord(-lat, lon);
                let (s_min, s_max) = south.neighborhood(step_size);
                all_regions.push(GeoBounds(s_min, s_max));
                let north = GeoCoord(lat, lon);
                let (n_min, n_max) = north.neighborhood(step_size);
                all_regions.push(GeoBounds(n_min, n_max));
                proof {
                    assert(-lat == -i * step) by {
                        lemma_mul_unary_negation(i, step);
                    }
                    lemma_mul_nonnegative(i, cols);
                    assert(all_regions@[pair_index(step, i, j)] == tile_at(step, i, j, true));
                    assert(all_regions@[pair_index(step, i, j) + 1] == tile_at(
                        step,
                        i,
                        j,
                        false,
                    ));
                    assert forall|i2: int, j2: int| 0 <= i2 < i && 0 <= j2 < cols implies {
                        &&& all_regions@[#[trigger] pair_index(step, i2, j2)] == tile_at(
                            step,
                            i2,
                            j2,
                            true,
                        )
                        &&& all_regions@[pair_index(step, i2, j2) + 1] == tile_at(
                            step,
                            i2,
                            j2,
                            false,
                        )
                    } by {
                        lemma_mul_nonnegative(i2, cols);
                        lemma_mul_inequality(i2 + 1, i, cols);
                        lemma_mul_is_distributive_add_other_way(cols, i2, 1);
                    }
                    j = j + 1;
                    assert(j * step == (j - 1) * step + step) by {
                        lemma_mul_is_distributive_sub_other_way(step, j, 1);
                    }
                }
                lon = lon + step_size;
            }
            proof {
                assert(j * step >= 2 * MICRO_LON_MAX);
                lemma_ceil_unique(2 * MICRO_LON_MAX as int, step, j);
                assert(j == cols);
                i = i + 1;
                assert(2 * ((i - 1) * cols + cols) == 2 * (i * cols)) by {
                    lemma_mul_is_distributive_sub_other_way(cols, i, 1);
                }
                assert(i * step == (i - 1) * step + step) by {
                    lemma_mul_is_distributive_sub_other_way(step, i, 1);
                }
                assert forall|i2: int, j2: int| 0 <= i2 < i && 0 <= j2 < cols implies {
                    &&& all_regions@[#[trigger] pair_index(step, i2, j2)] == tile_at(
                        step,
                        i2,
                        j2,
                        true,
                    )
                    &&& all_regions@[pair_index(step, i2, j2) + 1] == tile_at(step, i2, j2, false)
                } by {
                    if i2 == i - 1 {
                        assert(all_regions@[pair_index(step, i - 1, j2)] == tile_at(
                            step,
                            i - 1,
                            j2,
                            true,
                        ));
                        assert(all_regions@[pair_index(step, i - 1, j2) + 1] == tile_at(
                            step,
                            i - 1,
                            j2,
                            false,
                        ));
                    }
                }
            }
            lat = lat + step_size;
        }
        proof {
            assert(i * step >= MICRO_LAT_MAX);
            lemma_ceil_unique(MICRO_LAT_MAX as int, step, i);
            assert(i == grid_rows(step));
            assert(2 * (grid_rows(step) * cols) == 2 * grid_rows(step) * cols) by {
                lemma_mul_is_associative(2, grid_rows(step), cols);
            }
        }
        all_regions
    }
}

/// Grid coverage: every point of the globe lies in at least one tile of
/// `globe(step)`.
pub proof fn lemma_grid_coverage(step: int, tiles: Seq<GeoBounds>, p: GeoCoord)
    requires
        1 <= step <= MICRO_LON_MAX,
        grid_spec(step, tiles),
        p.wf(),
    ensures
        exists|k: int| 0 <= k < tiles.len() && (#[trigger] tiles[k]).contains_spec(p),
{
    let rows = grid_rows(step);
    let cols = grid_cols(step);
    lemma_ceil_bounds(MICRO_LAT_MAX as int, step);
    lemma_ceil_bounds(2 * MICRO_LON_MAX as int, step);
    let la = p.0 as int;
    let abs_la = if la >= 0 {
        la
    } else {
        -la
    };
    lemma_div_step_bounds(abs_la, step);
    let i0 = abs_la / step;
    let i = if i0 < rows {
        i0
    } else {
        rows - 1
    };
    // the latitude band of row i contains abs_la
    assert(i * step <= abs_la <= i * step + step) by {
        if i0 < rows {
        } else {
            lemma_mul_inequality(rows, i0, step);
            lemma_mul_is_distributive_sub_other_way(step, rows, 1);
        }
    }
    let q = p.1 as int + MICRO_LON_MAX;
    lemma_div_step_bounds(q, step);
    let j0 = q / step;
    let j = if j0 < cols {
        j0
    } else {
        cols - 1
    };
    assert(j * step <= q <= j * step + step) by {
        if j0 < cols {
        } else {
            lemma_mul_inequality(cols, j0, step);
            lemma_mul_is_distributive_sub_other_way(step, cols, 1);
        }
    }
    let south = la < 0;
    let k = if south {
        pair_index(step, i, j)
    } else {
        pair_index(step, i, j) + 1
    };
    // the selected tile pair exists
    assert(tiles[pair_index(step, i, j)] == tile_at(step, i, j, true));
    assert(tiles[pair_index(step, i, j) + 1] == tile_at(step, i, j, false));
    assert(0 <= pair_index(step, i, j) && pair_index(step, i, j) + 1 < tiles.len()) by {
        lemma_mul_nonnegative(i, cols);
        lemma_mul_inequality(i, rows - 1, cols);
        lemma_mul_is_distributive_sub_other_way(cols, rows, 1);
        lemma_mul_is_associative(2, rows, cols);
    }
    // the selected tile contains the point
    let clat = if south {
        -i * step
    } else {
        i * step
    };
    assert(clat - step <= la <= clat + step) by {
        lemma_mul_unary_negation(i, step);
    }
    assert(tiles[k].contains_spec(p));
}

/// Fixed-point scale of unit-vector components: 1.0 maps to `VEC_SCALE`.
pub const VEC_SCALE: i64 = 1_000_000_000;

/// `VEC_SCALE` squared.
pub const VEC_SCALE_SQ: i64 = 1_000_000_000_000_000_000;

/// How far the squared norm of a well-formed vector may drift from
/// `VEC_SCALE_SQ` through rounding of its components.
pub const VEC_NORM_TOL: i64 = 10_000_000_000;

/// A three-dimensional unit vector in fixed-point representation, used for
/// constant-time geodesic-distance comparisons: the dot product of two unit
/// vectors grows as the points move closer together.
#[derive(Clone, Copy, Debug, PartialEq, Eq, Structural)]
pub struct VecGeoCoord(pub i64, pub i64, pub i64);

/// The dot product of two vectors, at scale `VEC_SCALE_SQ`.
pub open spec fn dot(a: VecGeoCoord, b: VecGeoCoord) -> int {
    a.0 * b.0 + a.1 * b.1 + a.2 * b.2
}

impl VecGeoCoord {
    /// The components stay within the unit range and the vector has unit
    /// length up to rounding.
    pub open spec fn wf(self) -> bool {
        &&& -VEC_SCALE <= self.0 <= VEC_SCALE
        &&& -VEC_SCALE <= self.1 <= VEC_SCALE
        &&& -VEC_SCALE <= self.2 <= VEC_SCALE
        &&& VEC_SCALE_SQ - VEC_NORM_TOL <= dot(self, self) <= VEC_SCALE_SQ + VEC_NORM_TOL
    }

    /// The cosine of the angle between the two points, at scale
    /// `VEC_SCALE_SQ`: larger means closer.
    pub fn cos_geo_dist(&self, other: &Self) -> (r: i64)
        requires
            self.wf(),
            other.wf(),
        ensures
            r == dot(*self, *other),
    {
        proof {
            lemma_component_product_bounded(self.0 as int, other.0 as int);
            lemma_component_product_bounded(self.1 as int, other.1 as int);
            lemma_component_product_bounded(self.2 as int, other.2 as int);
        }
        self.0 * other.0 + self.1 * other.1 + self.2 * other.2
    }
}

proof fn lemma_component_product_bounded(a: int, b: int)
    requires
        -VEC_SCALE <= a <= VEC_SCALE,
        -VEC_SCALE <= b <= VEC_SCALE,
    ensures
        -VEC_SCALE_SQ <= a * b <= VEC_SCALE_SQ,
{
    assert(-VEC_SCALE_SQ <= a * b <= VEC_SCALE_SQ) by (nonlinear_arith)
        requires
            -VEC_SCALE <= a <= VEC_SCALE,
            -VEC_SCALE <= b <= VEC_SCALE,
    ;
}

/// Geodesic distance is symmetric: the dot product does not depend on the
/// order of its arguments.
pub proof fn lemma_cos_geo_dist_symmetric(a: VecGeoCoord, b: VecGeoCoord)
    ensures
        dot(a, b) == dot(b, a),
{
    lemma_mul_is_commutative(a.0 as int, b.0 as int);
    lemma_mul_is_commutative(a.1 as int, b.1 as int);
    lemma_mul_is_commutative(a.2 as int, b.2 as int);
}

/// The distance of a point to itself is zero up to rounding: its cosine is
/// the scale of the representation, up to the norm tolerance.
pub proof fn lemma_cos_geo_dist_identity(v: VecGeoCoord)
    requires
        v.wf(),
    ensures
        VEC_SCALE_SQ - VEC_NORM_TOL <= dot(v, v) <= VEC_SCALE_SQ + VEC_NORM_TOL,
{
}

} // verus!
