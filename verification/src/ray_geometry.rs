//! Why the walk along a ray is a walk along the ray: every block that the
//! walk visits holds a point of the segment that the ray stands for, and the
//! walk passes no solid block by before it comes to its target.

use vstd::prelude::*;
use crate::coords::BlockPosition;
use crate::math::abs;
use crate::store::StoreView;
use crate::targeting::{
    crosses, crossing, leaves_by_x, leaves_by_y, leaves_by_z, no_later, ray_left, ray_next, scan,
    target, Ray,
};

verus! {

/// Whether, along one axis, the point at the fraction `n / m` of a ray that
/// starts at `o` and advances by `d` lies within the block with coordinate
/// `c`, faces included.
pub open spec fn axis_inside(o: int, d: int, c: int, n: int, m: int) -> bool {
    -500 * m <= m * (o - 1000 * c) + n * d <= 500 * m
}

/// Whether the point at the fraction `n / m` of the ray lies within `cell`,
/// faces included.
pub open spec fn point_in_cell(ray: Ray, cell: BlockPosition, n: int, m: int) -> bool {
    &&& 0 <= n <= m
    &&& 0 < m
    &&& axis_inside(ray.origin.x as int, ray.dx as int, cell.x as int, n, m)
    &&& axis_inside(ray.origin.y as int, ray.dy as int, cell.y as int, n, m)
    &&& axis_inside(ray.origin.z as int, ray.dz as int, cell.z as int, n, m)
}

/// Whether some point of the ray lies within `cell`, faces included.
pub open spec fn ray_meets(ray: Ray, cell: BlockPosition) -> bool {
    exists|n: int, m: int| point_in_cell(ray, cell, n, m)
}

/// The ray starts within the block of its origin.
pub proof fn lemma_origin_in_cell(ray: Ray)
    ensures
        point_in_cell(ray, ray.origin.block(), 0, 1),
        ray_meets(ray, ray.origin.block()),
{
    assert(point_in_cell(ray, ray.origin.block(), 0, 1));
}

/// A point that is within a block at one fraction of the ray is at or before
/// the face through which the ray leaves the block along this axis.
proof fn lemma_inside_before_exit(o: int, d: int, c: int, n: int, m: int)
    requires
        d != 0,
        0 <= n,
        0 < m,
        axis_inside(o, d, c, n, m),
    ensures
        n * abs(d) <= crossing(o, d, c) * m,
        0 <= crossing(o, d, c),
{
    let k = crossing(o, d, c);
    if d > 0 {
        assert(m * (o - 1000 * c) == m * o - 1000 * (m * c)) by (nonlinear_arith);
        assert(k * m == 1000 * (m * c) + 500 * m - m * o) by (nonlinear_arith)
            requires
                k == c * 1000 + 500 - o,
        ;
        assert(0 <= n * d) by (nonlinear_arith)
            requires
                0 <= n,
                0 < d,
        ;
        assert(0 <= k) by (nonlinear_arith)
            requires
                0 <= k * m,
                0 < m,
        ;
    } else {
        assert(m * (o - 1000 * c) == m * o - 1000 * (m * c)) by (nonlinear_arith);
        assert(k * m == m * o - 1000 * (m * c) + 500 * m) by (nonlinear_arith)
            requires
                k == o - (c * 1000 - 500),
        ;
        assert(n * (-d) == -(n * d)) by (nonlinear_arith);
        assert(0 <= n * (-d)) by (nonlinear_arith)
            requires
                0 <= n,
                d < 0,
        ;
        assert(0 <= k) by (nonlinear_arith)
            requires
                0 <= k * m,
                0 < m,
        ;
    }
}

/// Along one axis, a point of the ray that is within a block stays within
/// it up to the face through which the ray leaves the block.
proof fn lemma_axis_stays(o: int, d: int, c: int, n0: int, m0: int, n1: int, m1: int)
    requires
        0 <= n0,
        0 < m0,
        0 <= n1,
        0 < m1,
        axis_inside(o, d, c, n0, m0),
        n0 * m1 <= n1 * m0,
        d != 0 ==> n1 * abs(d) <= crossing(o, d, c) * m1,
    ensures
        axis_inside(o, d, c, n1, m1),
{
    let p = o - 1000 * c;
    if d == 0 {
        assert(n0 * d == 0 && n1 * d == 0) by (nonlinear_arith)
            requires
                d == 0,
        ;
        assert(-500 <= p <= 500) by (nonlinear_arith)
            requires
                -500 * m0 <= m0 * p <= 500 * m0,
                0 < m0,
        ;
        assert(-500 * m1 <= m1 * p <= 500 * m1) by (nonlinear_arith)
            requires
                -500 <= p <= 500,
                0 < m1,
        ;
    } else if d > 0 {
        let k = crossing(o, d, c);
        assert(k == 500 - p);
        assert(k * m1 == 500 * m1 - m1 * p) by (nonlinear_arith)
            requires
                k == 500 - p,
        ;
        // not past the face ahead
        assert(m1 * p + n1 * d <= 500 * m1);
        // not before the face behind: the point only advances from where it was inside
        assert(m0 * (m1 * p + n1 * d) >= m1 * (m0 * p + n0 * d)) by (nonlinear_arith)
            requires
                n0 * m1 <= n1 * m0,
                0 < d,
        ;
        assert(m1 * (m0 * p + n0 * d) >= m1 * (-500 * m0)) by (nonlinear_arith)
            requires
                m0 * p + n0 * d >= -500 * m0,
                0 < m1,
        ;
        assert(m1 * p + n1 * d >= -500 * m1) by (nonlinear_arith)
            requires
                m0 * (m1 * p + n1 * d) >= m1 * (-500 * m0),
                0 < m0,
        ;
    } else {
        let k = crossing(o, d, c);
        assert(k == p + 500);
        assert(k * m1 == m1 * p + 500 * m1) by (nonlinear_arith)
            requires
                k == p + 500,
        ;
        assert(n1 * (-d) == -(n1 * d)) by (nonlinear_arith);
        assert(m1 * p + n1 * d >= -500 * m1);
        assert(m0 * (m1 * p + n1 * d) <= m1 * (m0 * p + n0 * d)) by (nonlinear_arith)
            requires
                n0 * m1 <= n1 * m0,
                d < 0,
        ;
        assert(m1 * (m0 * p + n0 * d) <= m1 * (500 * m0)) by (nonlinear_arith)
            requires
                m0 * p + n0 * d <= 500 * m0,
                0 < m1,
        ;
        assert(m1 * p + n1 * d <= 500 * m1) by (nonlinear_arith)
            requires
                m0 * (m1 * p + n1 * d) <= m1 * (500 * m0),
                0 < m0,
        ;
    }
}

/// Where the ray leaves a block along an axis, it is on the face that the
/// block shares with the next block along that axis.
proof fn lemma_axis_enters(o: int, d: int, c: int)
    requires
        d != 0,
    ensures
        axis_inside(o, d, if d > 0 { c + 1 } else { c - 1 }, crossing(o, d, c), abs(d)),
{
    let k = crossing(o, d, c);
    if d > 0 {
        assert(d * (o - 1000 * (c + 1)) + k * d == -500 * d) by (nonlinear_arith)
            requires
                k == c * 1000 + 500 - o,
        ;
    } else {
        assert((-d) * (o - 1000 * (c - 1)) + k * d == 500 * (-d)) by (nonlinear_arith)
            requires
                k == o - (c * 1000 - 500),
        ;
    }
}

/// If a first face is reached no later than a second, and the second
/// strictly before a third, the first is reached no later than the third.
proof fn lemma_order_chain(n1: int, a1: int, n2: int, a2: int, n3: int, a3: int)
    requires
        0 < a1,
        0 < a2,
        0 < a3,
        n1 * a2 <= n2 * a1,
        n2 * a3 <= n3 * a2,
    ensures
        n1 * a3 <= n3 * a1,
{
    assert(a3 * (n1 * a2) <= a3 * (n2 * a1)) by (nonlinear_arith)
        requires
            n1 * a2 <= n2 * a1,
            0 < a3,
    ;
    assert(a1 * (n2 * a3) <= a1 * (n3 * a2)) by (nonlinear_arith)
        requires
            n2 * a3 <= n3 * a2,
            0 < a1,
    ;
    assert(a2 * (n1 * a3) <= a2 * (n3 * a1)) by (nonlinear_arith)
        requires
            a3 * (n1 * a2) <= a3 * (n2 * a1),
            a1 * (n2 * a3) <= a1 * (n3 * a2),
    ;
    assert(n1 * a3 <= n3 * a1) by (nonlinear_arith)
        requires
            a2 * (n1 * a3) <= a2 * (n3 * a1),
            0 < a2,
    ;
}

/// A face that the ray reaches before it ends is reached no later than a
/// face that it does not reach before it ends.
proof fn lemma_reached_before_unreached(n1: int, a1: int, n2: int, a2: int)
    requires
        0 < a1,
        0 < a2,
        n1 <= a1,
        n2 > a2,
    ensures
        n1 * a2 <= n2 * a1,
{
    assert(n1 * a2 <= a1 * a2) by (nonlinear_arith)
        requires
            n1 <= a1,
            0 < a2,
    ;
    assert(a1 * a2 <= n2 * a1) by (nonlinear_arith)
        requires
            a2 < n2,
            0 < a1,
    ;
}

/// What the walk needs of the two axes along which it does not step: the
/// face through which the ray leaves along the stepped axis is reached no
/// later than the faces along the other axes.
spec fn first_out(n: int, d: int, o2: int, d2: int, c2: int) -> bool {
    d2 != 0 ==> n * abs(d2) <= crossing(o2, d2, c2) * abs(d)
}

/// Where the walk steps along an axis, the ray leaves through the face
/// across that axis no later than through a face across another axis.
proof fn lemma_step_is_first_out(ray: Ray, cell: BlockPosition)
    requires
        ray_next(ray, cell) is Some,
        0 <= crossing(ray.origin.x as int, ray.dx as int, cell.x as int) || ray.dx == 0,
        0 <= crossing(ray.origin.y as int, ray.dy as int, cell.y as int) || ray.dy == 0,
        0 <= crossing(ray.origin.z as int, ray.dz as int, cell.z as int) || ray.dz == 0,
    ensures
        ({
            let (ox, oy, oz) = (ray.origin.x as int, ray.origin.y as int, ray.origin.z as int);
            let (dx, dy, dz) = (ray.dx as int, ray.dy as int, ray.dz as int);
            let (cx, cy, cz) = (cell.x as int, cell.y as int, cell.z as int);
            let (nx, ny, nz) = (crossing(ox, dx, cx), crossing(oy, dy, cy), crossing(oz, dz, cz));
            &&& leaves_by_x(ray, cell) ==> first_out(nx, dx, oy, dy, cy) && first_out(
                nx,
                dx,
                oz,
                dz,
                cz,
            )
            &&& leaves_by_y(ray, cell) ==> first_out(ny, dy, ox, dx, cx) && first_out(
                ny,
                dy,
                oz,
                dz,
                cz,
            )
            &&& leaves_by_z(ray, cell) ==> first_out(nz, dz, ox, dx, cx) && first_out(
                nz,
                dz,
                oy,
                dy,
                cy,
            )
        }),
{
    let (ox, oy, oz) = (ray.origin.x as int, ray.origin.y as int, ray.origin.z as int);
    let (dx, dy, dz) = (ray.dx as int, ray.dy as int, ray.dz as int);
    let (cx, cy, cz) = (cell.x as int, cell.y as int, cell.z as int);
    let (nx, ny, nz) = (crossing(ox, dx, cx), crossing(oy, dy, cy), crossing(oz, dz, cz));
    let (ax, ay, az) = (abs(dx), abs(dy), abs(dz));
    let (kx, ky, kz) = (crosses(ox, dx, cx), crosses(oy, dy, cy), crosses(oz, dz, cz));
    if leaves_by_x(ray, cell) {
        if dy != 0 && !ky {
            lemma_reached_before_unreached(nx, ax, ny, ay);
        }
        if dz != 0 && !kz {
            lemma_reached_before_unreached(nx, ax, nz, az);
        }
    } else if leaves_by_y(ray, cell) {
        if dz != 0 && !kz {
            lemma_reached_before_unreached(ny, ay, nz, az);
        }
        if dx != 0 {
            if !kx {
                lemma_reached_before_unreached(ny, ay, nx, ax);
            } else if ky && !no_later(nx, dx, ny, dy) {
                // the ray leaves across y strictly before x
            } else {
                // the ray leaves across z strictly before x, and across y no later than z
                assert(kz && !no_later(nx, dx, nz, dz));
                lemma_order_chain(ny, ay, nz, az, nx, ax);
            }
        }
    } else {
        assert(leaves_by_z(ray, cell));
        if dy != 0 {
            if !ky {
                lemma_reached_before_unreached(nz, az, ny, ay);
            } else {
                assert(!no_later(ny, dy, nz, dz));
            }
        }
        if dx != 0 {
            if !kx {
                lemma_reached_before_unreached(nz, az, nx, ax);
            } else if kz && !no_later(nx, dx, nz, dz) {
                // the ray leaves across z strictly before x
            } else {
                // the ray leaves across y strictly before x, and across z before y
                assert(ky && !no_later(nx, dx, ny, dy));
                assert(!no_later(ny, dy, nz, dz));
                lemma_order_chain(nz, az, ny, ay, nx, ax);
            }
        }
    }
}

/// The fraction of the ray at which it leaves `cell`: the distance to the
/// face that it leaves through, over the ray's advance along that axis.
pub open spec fn leaving_fraction(ray: Ray, cell: BlockPosition) -> (int, int) {
    if leaves_by_x(ray, cell) {
        (crossing(ray.origin.x as int, ray.dx as int, cell.x as int), abs(ray.dx as int))
    } else if leaves_by_y(ray, cell) {
        (crossing(ray.origin.y as int, ray.dy as int, cell.y as int), abs(ray.dy as int))
    } else {
        (crossing(ray.origin.z as int, ray.dz as int, cell.z as int), abs(ray.dz as int))
    }
}

/// Whether the fraction `n / m` is no later on the ray than the fraction at
/// which the ray leaves `cell` through each face that lies ahead.
pub open spec fn before_exits(ray: Ray, cell: BlockPosition, n: int, m: int) -> bool {
    &&& ray.dx != 0 ==> n * abs(ray.dx as int) <= crossing(
        ray.origin.x as int,
        ray.dx as int,
        cell.x as int,
    ) * m
    &&& ray.dy != 0 ==> n * abs(ray.dy as int) <= crossing(
        ray.origin.y as int,
        ray.dy as int,
        cell.y as int,
    ) * m
    &&& ray.dz != 0 ==> n * abs(ray.dz as int) <= crossing(
        ray.origin.z as int,
        ray.dz as int,
        cell.z as int,
    ) * m
}

/// A point of the ray that lies between a point within a block and the
/// faces through which the ray leaves that block is within the block.
proof fn lemma_stays_until_exit(ray: Ray, cell: BlockPosition, n0: int, m0: int, n: int, m: int)
    requires
        point_in_cell(ray, cell, n0, m0),
        0 <= n <= m,
        0 < m,
        n0 * m <= n * m0,
        before_exits(ray, cell, n, m),
    ensures
        point_in_cell(ray, cell, n, m),
{
    lemma_axis_stays(ray.origin.x as int, ray.dx as int, cell.x as int, n0, m0, n, m);
    lemma_axis_stays(ray.origin.y as int, ray.dy as int, cell.y as int, n0, m0, n, m);
    lemma_axis_stays(ray.origin.z as int, ray.dz as int, cell.z as int, n0, m0, n, m);
}

/// A step of the walk leads from a block that holds a point of the ray to a
/// block that holds a later point of the ray: the point where the ray
/// crosses the face between the two. Up to that point the ray is within the
/// block that it leaves.
pub proof fn lemma_step_meets(ray: Ray, cell: BlockPosition, n0: int, m0: int)
    requires
        point_in_cell(ray, cell, n0, m0),
        ray_next(ray, cell) is Some,
    ensures
        ({
            let (n1, m1) = leaving_fraction(ray, cell);
            &&& point_in_cell(ray, ray_next(ray, cell).unwrap(), n1, m1)
            &&& point_in_cell(ray, cell, n1, m1)
            &&& n0 * m1 <= n1 * m0
            &&& forall|n: int, m: int|
                0 <= n <= m && 0 < m && n * m1 <= n1 * m ==> #[trigger] before_exits(
                    ray,
                    cell,
                    n,
                    m,
                )
        }),
        ray_meets(ray, ray_next(ray, cell).unwrap()),
{
    let (ox, oy, oz) = (ray.origin.x as int, ray.origin.y as int, ray.origin.z as int);
    let (dx, dy, dz) = (ray.dx as int, ray.dy as int, ray.dz as int);
    let (cx, cy, cz) = (cell.x as int, cell.y as int, cell.z as int);
    let (nx, ny, nz) = (crossing(ox, dx, cx), crossing(oy, dy, cy), crossing(oz, dz, cz));
    let next = ray_next(ray, cell).unwrap();
    let (n1, m1) = leaving_fraction(ray, cell);
    if dx != 0 {
        lemma_inside_before_exit(ox, dx, cx, n0, m0);
    }
    if dy != 0 {
        lemma_inside_before_exit(oy, dy, cy, n0, m0);
    }
    if dz != 0 {
        lemma_inside_before_exit(oz, dz, cz, n0, m0);
    }
    lemma_step_is_first_out(ray, cell);
    assert(0 < m1 && 0 <= n1 <= m1);
    assert(n0 * m1 <= n1 * m0);
    assert forall|n: int, m: int| 0 <= n <= m && 0 < m && n * m1 <= n1 * m implies #[trigger] before_exits(
        ray,
        cell,
        n,
        m,
    ) by {
        if dx != 0 {
            if leaves_by_x(ray, cell) {
            } else {
                lemma_order_chain(n, m, n1, m1, nx, abs(dx));
            }
        }
        if dy != 0 {
            if !leaves_by_x(ray, cell) && leaves_by_y(ray, cell) {
            } else {
                lemma_order_chain(n, m, n1, m1, ny, abs(dy));
            }
        }
        if dz != 0 {
            if !leaves_by_x(ray, cell) && !leaves_by_y(ray, cell) {
            } else {
                lemma_order_chain(n, m, n1, m1, nz, abs(dz));
            }
        }
    }
    assert(before_exits(ray, cell, n1, m1));
    lemma_stays_until_exit(ray, cell, n0, m0, n1, m1);
    if leaves_by_x(ray, cell) {
        lemma_axis_enters(ox, dx, cx);
    } else if leaves_by_y(ray, cell) {
        lemma_axis_enters(oy, dy, cy);
    } else {
        lemma_axis_enters(oz, dz, cz);
    }
    assert(point_in_cell(ray, next, n1, m1));
}

/// What the walk finds from a block that holds a point of the ray holds a
/// point of the ray, and so does the block before it.
pub proof fn lemma_scan_meets(
    m: StoreView,
    ray: Ray,
    cell: BlockPosition,
    previous: Option<BlockPosition>,
)
    requires
        ray_meets(ray, cell),
        previous matches Some(p) ==> ray_meets(ray, p),
    ensures
        scan(m, ray, cell, previous) matches Some(hit) ==> {
            &&& ray_meets(ray, hit.block)
            &&& hit.previous matches Some(p) ==> ray_meets(ray, p)
        },
    decreases ray_left(ray, cell),
{
    if !crate::store::solid_at(m, cell) && ray_next(ray, cell) is Some {
        let (n0, m0) = choose|n: int, d: int| point_in_cell(ray, cell, n, d);
        lemma_step_meets(ray, cell, n0, m0);
        crate::targeting::lemma_ray_shortens(ray, cell);
        lemma_scan_meets(m, ray, ray_next(ray, cell).unwrap(), Some(cell));
    }
}

/// The block that a ray targets, and the block from which the ray enters it,
/// each hold a point of the segment from the ray's origin to its end.
pub proof fn lemma_target_on_ray(m: StoreView, ray: Ray)
    ensures
        target(m, ray) matches Some(hit) ==> {
            &&& ray_meets(ray, hit.block)
            &&& hit.previous matches Some(p) ==> ray_meets(ray, p)
        },
{
    lemma_origin_in_cell(ray);
    lemma_scan_meets(m, ray, ray.origin.block(), None);
}

/// Whether the point at the fraction `n / m` of the ray lies within `cell`
/// and on none of its faces.
pub open spec fn strictly_inside(ray: Ray, cell: BlockPosition, n: int, m: int) -> bool {
    &&& 0 <= n <= m
    &&& 0 < m
    &&& -500 * m < m * (ray.origin.x - 1000 * cell.x) + n * ray.dx < 500 * m
    &&& -500 * m < m * (ray.origin.y - 1000 * cell.y) + n * ray.dy < 500 * m
    &&& -500 * m < m * (ray.origin.z - 1000 * cell.z) + n * ray.dz < 500 * m
}

/// Whether the ray is within `cell`, faces included, at a fraction of its
/// length that is no later than `n / m`.
pub open spec fn reached_by(ray: Ray, cell: BlockPosition, n: int, m: int) -> bool {
    exists|n1: int, m1: int| #[trigger] point_in_cell(ray, cell, n1, m1) && n1 * m <= n * m1
}

proof fn lemma_axis_unique(o: int, d: int, b: int, c: int, n: int, m: int)
    requires
        0 < m,
        -500 * m < m * (o - 1000 * b) + n * d < 500 * m,
        -500 * m <= m * (o - 1000 * c) + n * d <= 500 * m,
    ensures
        b == c,
{
    assert(m * (o - 1000 * b) - m * (o - 1000 * c) == 1000 * (m * (c - b))) by (nonlinear_arith);
    assert(-1 < c - b < 1) by (nonlinear_arith)
        requires
            -1000 * m < 1000 * (m * (c - b)) < 1000 * m,
            0 < m,
    ;
}

/// A point within a block and on none of its faces is within no other block.
pub proof fn lemma_interior_unique(ray: Ray, b: BlockPosition, c: BlockPosition, n: int, m: int)
    requires
        strictly_inside(ray, b, n, m),
        point_in_cell(ray, c, n, m),
    ensures
        b == c,
{
    lemma_axis_unique(ray.origin.x as int, ray.dx as int, b.x as int, c.x as int, n, m);
    lemma_axis_unique(ray.origin.y as int, ray.dy as int, b.y as int, c.y as int, n, m);
    lemma_axis_unique(ray.origin.z as int, ray.dz as int, b.z as int, c.z as int, n, m);
}

/// Where the ray is in `cell` at the fraction `n0 / m0` and later, at the
/// fraction `n / m`, inside a solid block, the walk from `cell` finds a
/// solid block, and the ray is in that block no later than at `n / m`.
pub proof fn lemma_scan_is_first(
    m: StoreView,
    ray: Ray,
    cell: BlockPosition,
    previous: Option<BlockPosition>,
    n0: int,
    m0: int,
    solid: BlockPosition,
    n: int,
    d: int,
)
    requires
        point_in_cell(ray, cell, n0, m0),
        crate::store::solid_at(m, solid),
        strictly_inside(ray, solid, n, d),
        n0 * d <= n * m0,
    ensures
        scan(m, ray, cell, previous) matches Some(hit) && reached_by(ray, hit.block, n, d),
    decreases ray_left(ray, cell),
{
    if crate::store::solid_at(m, cell) {
        assert(point_in_cell(ray, cell, n0, m0) && n0 * d <= n * m0);
    } else if ray_next(ray, cell) is Some {
        let (n1, m1) = leaving_fraction(ray, cell);
        lemma_step_meets(ray, cell, n0, m0);
        crate::targeting::lemma_ray_shortens(ray, cell);
        if n * m1 <= n1 * d {
            assert(before_exits(ray, cell, n, d));
            lemma_stays_until_exit(ray, cell, n0, m0, n, d);
            lemma_interior_unique(ray, solid, cell, n, d);
        } else {
            lemma_scan_is_first(m, ray, ray_next(ray, cell).unwrap(), Some(cell), n1, m1, solid, n, d);
        }
    } else {
        // the ray ends in this block: every later point of it is within the block
        let (ox, oy, oz) = (ray.origin.x as int, ray.origin.y as int, ray.origin.z as int);
        let (dx, dy, dz) = (ray.dx as int, ray.dy as int, ray.dz as int);
        if dx != 0 {
            lemma_inside_before_exit(ox, dx, cell.x as int, n0, m0);
            lemma_reached_before_unreached(
                n,
                d,
                crossing(ox, dx, cell.x as int),
                abs(dx),
            );
        }
        if dy != 0 {
            lemma_inside_before_exit(oy, dy, cell.y as int, n0, m0);
            lemma_reached_before_unreached(
                n,
                d,
                crossing(oy, dy, cell.y as int),
                abs(dy),
            );
        }
        if dz != 0 {
            lemma_inside_before_exit(oz, dz, cell.z as int, n0, m0);
            lemma_reached_before_unreached(
                n,
                d,
                crossing(oz, dz, cell.z as int),
                abs(dz),
            );
        }
        assert(before_exits(ray, cell, n, d));
        lemma_stays_until_exit(ray, cell, n0, m0, n, d);
        lemma_interior_unique(ray, solid, cell, n, d);
    }
}

/// The target of a ray is the first solid block on it: where the ray passes
/// through the inside of a solid block, it has a target, and it is in its
/// target no later than at that point. A ray without a target passes
/// through the inside of no solid block.
pub proof fn lemma_target_is_first(m: StoreView, ray: Ray, solid: BlockPosition, n: int, d: int)
    requires
        crate::store::solid_at(m, solid),
        strictly_inside(ray, solid, n, d),
    ensures
        target(m, ray) matches Some(hit) && reached_by(ray, hit.block, n, d),
{
    lemma_origin_in_cell(ray);
    lemma_scan_is_first(m, ray, ray.origin.block(), None, 0, 1, solid, n, d);
}

} // verus!
