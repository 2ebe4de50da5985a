//! The grid itself and how readings change it.
use vstd::prelude::*;

verus! {

/// Cells across: 32 m at 10 cm per cell.
pub const W: usize = 320;

pub const H: usize = 320;

/// Side of a cell in micrometres.
pub const CELL_UM: u64 = 100_000;

/// Longest range of a reading in micrometres.
pub const MAX_RANGE_UM: u64 = 1_500_000;

/// Cell encoding: 0 unknown, 1..=127 free (confidence), 128..=255 occupied.
pub const UNKNOWN: u8 = 0;

/// Occupancy grid, row by row.
#[derive(Debug)]
pub struct OccupancyMap {
    pub cells: Vec<u8>,
}

/// One reading from the ultrasonic sensor during a sweep.
#[derive(Debug, Clone, Copy, PartialEq, Eq, Structural)]
pub struct ScanRay {
    /// Servo angle in degrees (90 = forward).
    pub pan_deg: i32,
    /// Measured distance in micrometres, capped at the longest range.
    pub dist_um: u64,
    /// The cap was hit: no real obstacle.
    pub capped: bool,
}

/// A reading laid over the grid.
#[derive(Debug)]
pub struct CastRay {
    /// Places along the ray.
    pub path: Vec<(i32, i32)>,
    /// Place of the obstacle; none where the reading was capped.
    pub end: Option<(i32, i32)>,
}

/// A cell after one more free sighting: 8 more confidence, at most 127; an
/// occupied cell stays as it is.
pub open spec fn freer(cell: u8) -> u8 {
    if cell >= 128 {
        cell
    } else if cell + 8 > 127 {
        127
    } else {
        (cell + 8) as u8
    }
}

/// A cell after one more obstacle sighting: occupied, 16 more confidence, at
/// most 255.
pub open spec fn fuller(cell: u8) -> u8 {
    let c = if cell < 128 {
        128u8
    } else {
        cell
    };
    if c + 16 > 255 {
        255
    } else {
        (c + 16) as u8
    }
}

pub open spec fn in_grid(gx: i32, gy: i32) -> bool {
    0 <= gx < W && 0 <= gy < H
}

pub open spec fn cell_index(gx: i32, gy: i32) -> int {
    gy * 320 + gx
}

/// The grid after the cell at `(gx, gy)` was seen free; a place outside the
/// grid changes nothing.
pub open spec fn with_free(cells: Seq<u8>, gx: i32, gy: i32) -> Seq<u8> {
    if in_grid(gx, gy) {
        cells.update(cell_index(gx, gy), freer(cells[cell_index(gx, gy)]))
    } else {
        cells
    }
}

/// The grid after an obstacle was seen at `(gx, gy)`.
pub open spec fn with_hit(cells: Seq<u8>, gx: i32, gy: i32) -> Seq<u8> {
    if in_grid(gx, gy) {
        cells.update(cell_index(gx, gy), fuller(cells[cell_index(gx, gy)]))
    } else {
        cells
    }
}

/// The grid after the first `n` places of a ray were seen free.
pub open spec fn with_ray(cells: Seq<u8>, path: Seq<(i32, i32)>, n: nat) -> Seq<u8>
    decreases n,
{
    if n == 0 {
        cells
    } else {
        with_free(with_ray(cells, path, (n - 1) as nat), path[n - 1].0, path[n - 1].1)
    }
}

/// The grid after a ray with what it ends at.
pub open spec fn with_cast(cells: Seq<u8>, path: Seq<(i32, i32)>, end: Option<(i32, i32)>) -> Seq<
    u8,
> {
    match end {
        Some(e) => with_hit(with_ray(cells, path, path.len()), e.0, e.1),
        None => with_ray(cells, path, path.len()),
    }
}

/// The grid after the first `n` rays of a sweep, one after the other.
pub open spec fn with_scan(cells: Seq<u8>, rays: Seq<CastRay>, n: nat) -> Seq<u8>
    decreases n,
{
    if n == 0 {
        cells
    } else {
        with_cast(
            with_scan(cells, rays, (n - 1) as nat),
            rays[n - 1].path@,
            rays[n - 1].end,
        )
    }
}

impl OccupancyMap {
    pub open spec fn wf(&self) -> bool {
        self.cells@.len() == W * H
    }

    /// An unexplored map.
    pub fn new() -> (r: Self)
        ensures
            r.wf(),
            forall|i: int| 0 <= i < r.cells@.len() ==> #[trigger] r.cells@[i] == UNKNOWN,
    {
        OccupancyMap { cells: vec![UNKNOWN; W * H] }
    }

    fn mark_free(&mut self, gx: i32, gy: i32)
        requires
            old(self).wf(),
        ensures
            final(self).wf(),
            final(self).cells@ == with_free(old(self).cells@, gx, gy),
    {
        if gx < 0 || gy < 0 || gx >= W as i32 || gy >= H as i32 {
            return ;
        }
        let i: usize = gy as usize * W + gx as usize;
        let c: u8 = self.cells[i];
        let v: u8 = if c >= 128 {
            c
        } else if c + 8 > 127 {
            127
        } else {
            c + 8
        };
        self.cells.set(i, v);
    }

    fn mark_hit(&mut self, gx: i32, gy: i32)
        requires
            old(self).wf(),
        ensures
            final(self).wf(),
            final(self).cells@ == with_hit(old(self).cells@, gx, gy),
    {
        if gx < 0 || gy < 0 || gx >= W as i32 || gy >= H as i32 {
            return ;
        }
        let i: usize = gy as usize * W + gx as usize;
        let c: u8 = if self.cells[i] < 128 {
            128
        } else {
            self.cells[i]
        };
        let v: u8 = if c > 239 {
            255
        } else {
            c + 16
        };
        self.cells.set(i, v);
    }

    /// Integrates one ray: the places along it are free, and its end is an
    /// obstacle unless the reading was capped.
    pub fn integrate_ray(&mut self, path: &[(i32, i32)], end: Option<(i32, i32)>)
        requires
            old(self).wf(),
        ensures
            final(self).wf(),
            final(self).cells@ == with_cast(old(self).cells@, path@, end),
    {
        let ghost before = self.cells@;
        let mut n: usize = 0;
        while n < path.len()
            invariant
                n <= path@.len(),
                self.wf(),
                self.cells@ == with_ray(before, path@, n as nat),
            decreases path@.len() - n,
        {
            let (gx, gy): (i32, i32) = path[n];
            self.mark_free(gx, gy);
            n = n + 1;
        }
        if let Some(e) = end {
            self.mark_hit(e.0, e.1);
        }
    }

    /// Integrates a full sweep of rays.
    pub fn integrate_scan(&mut self, rays: &[CastRay])
        requires
            old(self).wf(),
        ensures
            final(self).wf(),
            final(self).cells@ == with_scan(old(self).cells@, rays@, rays@.len()),
    {
        let ghost before = self.cells@;
        let mut n: usize = 0;
        while n < rays.len()
            invariant
                n <= rays@.len(),
                self.wf(),
                self.cells@ == with_scan(before, rays@, n as nat),
            decreases rays@.len() - n,
        {
            let ray: &CastRay = &rays[n];
            self.integrate_ray(ray.path.as_slice(), ray.end);
            n = n + 1;
        }
    }
}

/// The ray of a reading.
pub open spec fn ray_of(pan_deg: i32, raw_um: Option<u64>) -> ScanRay {
    let capped = raw_um is None || raw_um->0 >= MAX_RANGE_UM;
    ScanRay {
        pan_deg,
        dist_um: if capped {
            MAX_RANGE_UM
        } else {
            raw_um->0
        },
        capped,
    }
}

/// A reading of the sweep: no echo, or one at or beyond the longest range, is
/// capped there.
pub fn scan_ray(pan_deg: i32, raw_um: Option<u64>) -> (r: ScanRay)
    ensures
        r == ray_of(pan_deg, raw_um),
{
    match raw_um {
        Some(d) => {
            if d >= MAX_RANGE_UM {
                ScanRay { pan_deg, dist_um: MAX_RANGE_UM, capped: true }
            } else {
                ScanRay { pan_deg, dist_um: d, capped: false }
            }
        },
        None => ScanRay { pan_deg, dist_um: MAX_RANGE_UM, capped: true },
    }
}

/// A ray never frees an obstacle and never forgets: occupied cells keep their
/// value, known cells stay known, and free confidence only grows, to 127 at
/// most.
pub proof fn law_ray_keeps_what_is_known(cells: Seq<u8>, path: Seq<(i32, i32)>, n: nat, i: int)
    requires
        cells.len() == W * H,
        n <= path.len(),
        0 <= i < cells.len(),
    ensures
        with_ray(cells, path, n).len() == W * H,
        cells[i] >= 128 ==> with_ray(cells, path, n)[i] == cells[i],
        cells[i] < 128 ==> cells[i] <= with_ray(cells, path, n)[i] <= 127,
    decreases n,
{
    if n > 0 {
        law_ray_keeps_what_is_known(cells, path, (n - 1) as nat, i);
    }
}

/// One of the first `n` rays ends at cell `i` of the grid.
pub open spec fn hit_at(rays: Seq<CastRay>, n: nat, i: int) -> bool {
    exists|k: int|
        0 <= k < n && ((#[trigger] rays[k]).end matches Some(e) && in_grid(e.0, e.1) && cell_index(
            e.0,
            e.1,
        ) == i)
}

/// A sweep never forgets: no cell loses confidence, so what is known stays known
/// and what is occupied stays occupied. A cell that was not occupied ends free or
/// unknown, at most 127, if no ray ended there, and occupied, at least 144, if one
/// did; an occupied cell on which no ray ended keeps its value.
pub proof fn law_scan_never_forgets(cells: Seq<u8>, rays: Seq<CastRay>, n: nat, i: int)
    requires
        cells.len() == W * H,
        n <= rays.len(),
        0 <= i < cells.len(),
    ensures
        with_scan(cells, rays, n).len() == W * H,
        with_scan(cells, rays, n)[i] >= cells[i],
        cells[i] < 128 && !hit_at(rays, n, i) ==> with_scan(cells, rays, n)[i] <= 127,
        cells[i] >= 128 && !hit_at(rays, n, i) ==> with_scan(cells, rays, n)[i] == cells[i],
        hit_at(rays, n, i) ==> with_scan(cells, rays, n)[i] >= 144,
    decreases n,
{
    if n > 0 {
        law_scan_never_forgets(cells, rays, (n - 1) as nat, i);
        let before = with_scan(cells, rays, (n - 1) as nat);
        let path = rays[n - 1].path@;
        law_ray_keeps_what_is_known(before, path, path.len(), i);
        if hit_at(rays, (n - 1) as nat, i) {
            let k = choose|k: int|
                0 <= k < n - 1 && ((#[trigger] rays[k]).end matches Some(e) && in_grid(e.0, e.1)
                    && cell_index(e.0, e.1) == i);
            assert(hit_at(rays, n, i)) by {
                assert(rays[k].end is Some);
            }
        }
        if let Some(e) = rays[n - 1].end {
            if in_grid(e.0, e.1) && cell_index(e.0, e.1) == i {
                assert(hit_at(rays, n, i)) by {
                    assert(rays[n - 1].end is Some);
                }
            }
        }
    }
}

/// An obstacle sighting makes its cell occupied and leaves all others alone.
pub proof fn law_hit_marks_one_cell(cells: Seq<u8>, gx: i32, gy: i32, i: int)
    requires
        cells.len() == W * H,
        in_grid(gx, gy),
        0 <= i < cells.len(),
    ensures
        i == cell_index(gx, gy) ==> with_hit(cells, gx, gy)[i] >= 144,
        i != cell_index(gx, gy) ==> with_hit(cells, gx, gy)[i] == cells[i],
{
}

/// Cells are row by row, 320 to a row, and each place has its own.
pub proof fn law_each_place_has_its_cell(gx: i32, gy: i32, hx: i32, hy: i32)
    requires
        in_grid(gx, gy),
        in_grid(hx, hy),
    ensures
        0 <= gx < 320 && 0 <= gy < 320,
        0 <= cell_index(gx, gy) < 320 * 320,
        cell_index(gx, gy) == cell_index(hx, hy) ==> gx == hx && gy == hy,
        hx == gx + 1 && hy == gy ==> cell_index(hx, hy) == cell_index(gx, gy) + 1,
        hx == gx && hy == gy + 1 ==> cell_index(hx, hy) == cell_index(gx, gy) + 320,
{
}

/// A free sighting adds 8 to the confidence that a cell is free, up to 127, and an
/// obstacle sighting makes it occupied and adds 16, up to 255. An occupied cell is not
/// freed.
pub proof fn law_confidence_grows(cell: u8)
    ensures
        cell <= 119 ==> freer(cell) == cell + 8,
        119 <= cell <= 127 ==> freer(cell) == 127,
        cell >= 128 ==> freer(cell) == cell,
        cell < 128 ==> fuller(cell) == 144,
        128 <= cell <= 239 ==> fuller(cell) == cell + 16,
        cell >= 239 ==> fuller(cell) == 255,
{
}

/// A ray makes every cell that it crosses and that is not occupied known and free, and
/// touches no other.
pub proof fn law_ray_frees_its_path(cells: Seq<u8>, path: Seq<(i32, i32)>, n: nat, i: int)
    requires
        cells.len() == 320 * 320,
        n <= path.len(),
        0 <= i < cells.len(),
    ensures
        (forall|k: int|
            0 <= k < n ==> !(in_grid((#[trigger] path[k]).0, path[k].1) && cell_index(
                path[k].0,
                path[k].1,
            ) == i)) ==> with_ray(cells, path, n)[i] == cells[i],
        (exists|k: int|
            0 <= k < n && in_grid((#[trigger] path[k]).0, path[k].1) && cell_index(
                path[k].0,
                path[k].1,
            ) == i) && cells[i] < 128 ==> {
            &&& with_ray(cells, path, n)[i] <= 127
            &&& with_ray(cells, path, n)[i] >= cells[i] + 8 || with_ray(cells, path, n)[i] == 127
        },
    decreases n,
{
    law_ray_keeps_what_is_known(cells, path, n, i);
    if n > 0 {
        let m = (n - 1) as nat;
        law_ray_keeps_what_is_known(cells, path, m, i);
        law_ray_frees_its_path(cells, path, m, i);
        let p = path[m as int];
        if in_grid(p.0, p.1) && cell_index(p.0, p.1) == i {
            assert(path[m as int] == p);
        }
        if exists|k: int|
            0 <= k < m && in_grid((#[trigger] path[k]).0, path[k].1) && cell_index(
                path[k].0,
                path[k].1,
            ) == i {
            let k = choose|k: int|
                0 <= k < m && in_grid((#[trigger] path[k]).0, path[k].1) && cell_index(
                    path[k].0,
                    path[k].1,
                ) == i;
            assert(0 <= k < n);
        }
    }
}

/// What a ray ends at becomes occupied; a ray without an end marks no obstacle.
pub proof fn law_cast_ends_at_an_obstacle(
    cells: Seq<u8>,
    path: Seq<(i32, i32)>,
    end: Option<(i32, i32)>,
    i: int,
)
    requires
        cells.len() == 320 * 320,
        0 <= i < cells.len(),
    ensures
        with_cast(cells, path, end).len() == 320 * 320,
        end is Some && in_grid(end->Some_0.0, end->Some_0.1) && cell_index(
            end->Some_0.0,
            end->Some_0.1,
        ) == i ==> with_cast(cells, path, end)[i] >= 144,
        !(end is Some && in_grid(end->Some_0.0, end->Some_0.1) && cell_index(
            end->Some_0.0,
            end->Some_0.1,
        ) == i) ==> with_cast(
            cells,
            path,
            end,
        )[i] == with_ray(cells, path, path.len())[i],
{
    law_ray_keeps_what_is_known(cells, path, path.len(), i);
}

/// A reading below a metre and a half stands as it is. One of that or more, and none at all,
/// counts as a metre and a half without an obstacle.
pub proof fn law_readings_are_capped(pan_deg: i32, um: u64)
    ensures
        um < 1_500_000 ==> !ray_of(pan_deg, Some(um)).capped && ray_of(pan_deg, Some(um)).dist_um == um,
        um >= 1_500_000 ==> ray_of(pan_deg, Some(um)) == ray_of(pan_deg, None),
        ray_of(pan_deg, None).capped && ray_of(pan_deg, None).dist_um == 1_500_000,
        ray_of(pan_deg, Some(um)).pan_deg == pan_deg,
{
}

} // verus!
