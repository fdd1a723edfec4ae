//! Point clouds as they are read from and written to PCD files.
//!
//! Coordinates are only moved here, never computed with, so their type is left open.
use crate::alignment::Transform;
use crate::scalar::{functional, Scalar};
use vstd::prelude::*;

verus! {

/// A point of a cloud.
#[derive(Copy)]
pub struct PointXYZ<T> {
    pub x: T,
    pub y: T,
    pub z: T,
}

impl<T: Copy> Clone for PointXYZ<T> {
    fn clone(&self) -> (copy: Self)
        ensures
            copy == *self,
    {
        *self
    }
}

/// A point with a colour: `rgb` is the bit pattern of the single-precision number
/// that the colour is stored in.
#[derive(Copy)]
pub struct PointXYZRGB<T> {
    pub x: T,
    pub y: T,
    pub z: T,
    pub rgb: u32,
}

impl<T: Copy> Clone for PointXYZRGB<T> {
    fn clone(&self) -> (copy: Self)
        ensures
            copy == *self,
    {
        *self
    }
}

/// A cloud.
pub struct Points<T> {
    pub points: Vec<PointXYZ<T>>,
}

/// The pattern that holds a colour: red, green and blue in its three low bytes.
pub open spec fn packed(r: u8, g: u8, b: u8) -> int {
    r * 0x10000 + g * 0x100 + b
}

/// The bit pattern of the single-precision number that stands for a colour.
pub fn rgb_to_float(r: u8, g: u8, b: u8) -> (bits: u32)
    ensures
        bits == packed(r, g, b),
{
    let rgb_int: u32 = ((r as u32) << 16) | ((g as u32) << 8) | (b as u32);
    assert(((r as u32) << 16) | ((g as u32) << 8) | (b as u32) == r * 0x10000 + g * 0x100 + b)
        by (bit_vector);
    rgb_int
}

/// A packed colour can be read back, and its pattern is that of a finite number: it
/// leaves the exponent's upper bits clear.
pub proof fn law_colour_can_be_read_back(r: u8, g: u8, b: u8)
    ensures
        packed(r, g, b) / 0x10000 == r,
        packed(r, g, b) / 0x100 % 0x100 == g,
        packed(r, g, b) % 0x100 == b,
        0 <= packed(r, g, b) < 0x100_0000,
{
}

/// The width and height that a PCD file declares.
pub struct PcdHeader {
    pub width: u64,
    pub height: u64,
}

/// The declaration of a file with `len` points: one column of them.
pub fn pcd_header(len: usize) -> (header: PcdHeader)
    ensures
        header.width == 1,
        header.height == len,
{
    PcdHeader { width: 1, height: len as u64 }
}

/// A point in a colour.
pub open spec fn coloured<T>(p: PointXYZ<T>, color: (u8, u8, u8)) -> PointXYZRGB<T> {
    PointXYZRGB { x: p.x, y: p.y, z: p.z, rgb: packed(color.0, color.1, color.2) as u32 }
}

/// The points of a cloud in a colour, in their order.
pub open spec fn coloured_all<T>(points: Seq<PointXYZ<T>>, color: (u8, u8, u8)) -> Seq<
    PointXYZRGB<T>,
> {
    Seq::new(points.len(), |i: int| coloured(points[i], color))
}

/// `row` are the homogeneous coordinates of a point in the numbers that `widen` turns its
/// coordinates into: the three of them and a one.
pub open spec fn is_row_of<T, S: Scalar, W: Fn(T) -> S>(
    row: [S; 4],
    p: PointXYZ<T>,
    widen: W,
) -> bool {
    &&& call_ensures(widen, (p.x,), row[0])
    &&& call_ensures(widen, (p.y,), row[1])
    &&& call_ensures(widen, (p.z,), row[2])
    &&& call_ensures(S::ratio, (1i32, 1u32), row[3])
}

/// `image` is where the transform takes `p`: the first three numbers of an outcome of
/// `product` on the transform and the point's homogeneous coordinates, turned back by
/// `narrow`.
pub open spec fn is_image_of<
    T,
    S: Scalar,
    W: Fn(T) -> S,
    P: Fn(&Transform<S>, &[S; 4]) -> [S; 4],
    N: Fn(S) -> T,
>(
    image: PointXYZ<T>,
    p: PointXYZ<T>,
    transform: Transform<S>,
    widen: W,
    product: P,
    narrow: N,
) -> bool {
    exists|row: [S; 4], moved: [S; 4]|
        {
            &&& is_row_of(row, p, widen)
            &&& #[trigger] call_ensures(product, (&transform, &row), moved)
            &&& call_ensures(narrow, (moved[0],), image.x)
            &&& call_ensures(narrow, (moved[1],), image.y)
            &&& call_ensures(narrow, (moved[2],), image.z)
        }
}

impl<T: Copy> Points<T> {
    /// A cloud of the points given.
    pub fn new(p: Vec<PointXYZ<T>>) -> (cloud: Self)
        ensures
            cloud.points == p,
    {
        Points { points: p }
    }

    /// Moves every point by the transform. `widen` turns a coordinate into a number that
    /// the transform is computed with and `narrow` turns one back; `product` multiplies
    /// the transform with homogeneous coordinates.
    pub fn apply_transform<
        S: Scalar,
        W: Fn(T) -> S,
        P: Fn(&Transform<S>, &[S; 4]) -> [S; 4],
        N: Fn(S) -> T,
    >(&mut self, transform: &Transform<S>, widen: W, product: P, narrow: N)
        requires
            forall|x: T| #[trigger] call_requires(widen, (x,)),
            forall|m: &Transform<S>, row: &[S; 4]| #[trigger] call_requires(product, (m, row)),
            forall|x: S| #[trigger] call_requires(narrow, (x,)),
        ensures
            final(self).points@.len() == old(self).points@.len(),
            forall|i: int|
                0 <= i < old(self).points@.len() ==> is_image_of(
                    #[trigger] final(self).points@[i],
                    old(self).points@[i],
                    *transform,
                    widen,
                    product,
                    narrow,
                ),
    {
        let mut moved: Vec<PointXYZ<T>> = Vec::new();
        let mut i: usize = 0;
        while i < self.points.len()
            invariant
                self.points == old(self).points,
                i <= self.points@.len(),
                forall|x: T| #[trigger] call_requires(widen, (x,)),
                forall|m: &Transform<S>, row: &[S; 4]| #[trigger]
                    call_requires(product, (m, row)),
                forall|x: S| #[trigger] call_requires(narrow, (x,)),
                moved@.len() == i,
                forall|j: int|
                    0 <= j < i ==> is_image_of(
                        #[trigger] moved@[j],
                        self.points@[j],
                        *transform,
                        widen,
                        product,
                        narrow,
                    ),
            decreases self.points@.len() - i,
        {
            let p: PointXYZ<T> = self.points[i];
            let one: S = S::ratio(1, 1);
            let row: [S; 4] = [widen(p.x), widen(p.y), widen(p.z), one];
            let image: [S; 4] = product(transform, &row);
            let q: PointXYZ<T> = PointXYZ {
                x: narrow(image[0]),
                y: narrow(image[1]),
                z: narrow(image[2]),
            };
            assert(is_row_of(row, p, widen));
            assert(call_ensures(product, (transform, &row), image));
            moved.push(q);
            i += 1;
        }
        self.points = moved;
    }

    /// The points in one colour.
    pub fn transform_colored_points(&self, color: (u8, u8, u8)) -> (pts: Vec<PointXYZRGB<T>>)
        ensures
            pts@ == coloured_all(self.points@, color),
    {
        let rgb: u32 = rgb_to_float(color.0, color.1, color.2);
        let mut pts: Vec<PointXYZRGB<T>> = Vec::new();
        let mut i: usize = 0;
        while i < self.points.len()
            invariant
                i <= self.points@.len(),
                rgb == packed(color.0, color.1, color.2),
                pts@.len() == i,
                forall|j: int|
                    0 <= j < i ==> #[trigger] pts@[j] == coloured(self.points@[j], color),
            decreases self.points@.len() - i,
        {
            let p: PointXYZ<T> = self.points[i];
            pts.push(PointXYZRGB { x: p.x, y: p.y, z: p.z, rgb });
            i += 1;
        }
        pts
    }
}

/// `row` are the coordinates of a point, turned into other numbers by `widen`.
pub open spec fn widens<T, S, W: Fn(T) -> S>(row: [S; 3], p: PointXYZ<T>, widen: W) -> bool {
    &&& call_ensures(widen, (p.x,), row[0])
    &&& call_ensures(widen, (p.y,), row[1])
    &&& call_ensures(widen, (p.z,), row[2])
}

/// `p` has the coordinates of a row, turned into other numbers by `narrow`.
pub open spec fn narrows<T, S, N: Fn(S) -> T>(p: PointXYZ<T>, row: [S; 3], narrow: N) -> bool {
    &&& call_ensures(narrow, (row[0],), p.x)
    &&& call_ensures(narrow, (row[1],), p.y)
    &&& call_ensures(narrow, (row[2],), p.z)
}

/// `rows` are the coordinates of the points, one row for each, turned into other numbers
/// by `widen`.
pub open spec fn are_widened<T, S, W: Fn(T) -> S>(
    rows: Seq<[S; 3]>,
    points: Seq<PointXYZ<T>>,
    widen: W,
) -> bool {
    &&& rows.len() == points.len()
    &&& forall|i: int| 0 <= i < rows.len() ==> widens(#[trigger] rows[i], points[i], widen)
}

/// `points` have the coordinates of the rows, one point for each, turned into other
/// numbers by `narrow`.
pub open spec fn are_narrowed<T, S, N: Fn(S) -> T>(
    points: Seq<PointXYZ<T>>,
    rows: Seq<[S; 3]>,
    narrow: N,
) -> bool {
    &&& points.len() == rows.len()
    &&& forall|i: int| 0 <= i < points.len() ==> narrows(#[trigger] points[i], rows[i], narrow)
}

/// The coordinates of the cloud's points, one row for each. `widen` turns a coordinate
/// into the number that is computed with.
pub fn points_to_array2<T: Copy, S, W: Fn(T) -> S>(points: &Points<T>, widen: W) -> (rows: Vec<
    [S; 3],
>)
    requires
        forall|x: T| #[trigger] call_requires(widen, (x,)),
    ensures
        are_widened(rows@, points.points@, widen),
{
    let mut rows: Vec<[S; 3]> = Vec::new();
    let mut i: usize = 0;
    while i < points.points.len()
        invariant
            i <= points.points@.len(),
            forall|x: T| #[trigger] call_requires(widen, (x,)),
            rows@.len() == i,
            forall|j: int|
                0 <= j < i ==> widens(#[trigger] rows@[j], points.points@[j], widen),
        decreases points.points@.len() - i,
    {
        let p: PointXYZ<T> = points.points[i];
        let row: [S; 3] = [widen(p.x), widen(p.y), widen(p.z)];
        assert(widens(row, p, widen));
        rows.push(row);
        i += 1;
    }
    rows
}

/// The cloud with the coordinates given, one point for each row. `narrow` turns a number
/// that was computed with into a coordinate.
pub fn array2_to_points<T: Copy, S: Copy, N: Fn(S) -> T>(rows: &Vec<[S; 3]>, narrow: N) -> (points:
    Points<T>)
    requires
        forall|x: S| #[trigger] call_requires(narrow, (x,)),
    ensures
        are_narrowed(points.points@, rows@, narrow),
{
    let mut pts: Vec<PointXYZ<T>> = Vec::new();
    let mut i: usize = 0;
    while i < rows.len()
        invariant
            i <= rows@.len(),
            forall|x: S| #[trigger] call_requires(narrow, (x,)),
            pts@.len() == i,
            forall|j: int| 0 <= j < i ==> narrows(#[trigger] pts@[j], rows@[j], narrow),
        decreases rows@.len() - i,
    {
        let row: [S; 3] = rows[i];
        pts.push(PointXYZ { x: narrow(row[0]), y: narrow(row[1]), z: narrow(row[2]) });
        i += 1;
    }
    Points::new(pts)
}

/// `y` is what becomes of `x` on the way there and back.
pub open spec fn comes_back_as<X, Y, F: Fn(X) -> Y, G: Fn(Y) -> X>(
    x: X,
    y: X,
    there: F,
    back: G,
) -> bool {
    exists|between: Y| #[trigger]
        call_ensures(there, (x,), between) && call_ensures(back, (between,), y)
}

/// `x` comes back as it was.
pub open spec fn survives<X, Y, F: Fn(X) -> Y, G: Fn(Y) -> X>(x: X, there: F, back: G) -> bool {
    forall|y: X| #[trigger] comes_back_as(x, y, there, back) ==> y == x
}

/// Rows turned into a cloud and back are as many rows, and each number is what becomes of
/// it by narrowing and widening: itself, where it survives that.
pub proof fn law_rows_round_trip<T, S, N: Fn(S) -> T, W: Fn(T) -> S>(
    rows: Seq<[S; 3]>,
    points: Seq<PointXYZ<T>>,
    back: Seq<[S; 3]>,
    narrow: N,
    widen: W,
)
    requires
        are_narrowed(points, rows, narrow),
        are_widened(back, points, widen),
    ensures
        back.len() == rows.len(),
        forall|i: int, j: int|
            0 <= i < rows.len() && 0 <= j < 3 ==> {
                &&& comes_back_as(rows[i][j], #[trigger] back[i][j], narrow, widen)
                &&& survives(rows[i][j], narrow, widen) ==> back[i][j] == rows[i][j]
            },
{
    assert forall|i: int, j: int| 0 <= i < rows.len() && 0 <= j < 3 implies comes_back_as(
        rows[i][j],
        #[trigger] back[i][j],
        narrow,
        widen,
    ) by {
        let p = points[i];
        assert(narrows(p, rows[i], narrow) && widens(back[i], p, widen));
        let between = if j == 0 {
            p.x
        } else if j == 1 {
            p.y
        } else {
            p.z
        };
        assert(call_ensures(narrow, (rows[i][j],), between));
    }
}

/// A cloud turned into rows and back is the same cloud, where every coordinate survives
/// widening and narrowing.
pub proof fn law_points_round_trip<T, S, W: Fn(T) -> S, N: Fn(S) -> T>(
    points: Seq<PointXYZ<T>>,
    rows: Seq<[S; 3]>,
    back: Seq<PointXYZ<T>>,
    widen: W,
    narrow: N,
)
    requires
        are_widened(rows, points, widen),
        are_narrowed(back, rows, narrow),
        forall|x: T| #[trigger] survives(x, widen, narrow),
    ensures
        back == points,
{
    assert forall|i: int| 0 <= i < points.len() implies #[trigger] back[i] == points[i] by {
        let (p, q) = (points[i], back[i]);
        assert(widens(rows[i], p, widen) && narrows(q, rows[i], narrow));
        assert(survives(p.x, widen, narrow) && comes_back_as(p.x, q.x, widen, narrow));
        assert(survives(p.y, widen, narrow) && comes_back_as(p.y, q.y, widen, narrow));
        assert(survives(p.z, widen, narrow) && comes_back_as(p.z, q.z, widen, narrow));
    }
    assert(back =~= points);
}

/// A transform's last row does not matter: where each number of a product comes from its
/// own row of the transform, transforms that agree in their other rows take a point to the
/// same image.
pub proof fn law_last_row_does_not_matter<
    T,
    S: Scalar,
    W: Fn(T) -> S,
    P: Fn(&Transform<S>, &[S; 4]) -> [S; 4],
    N: Fn(S) -> T,
>(
    a: PointXYZ<T>,
    b: PointXYZ<T>,
    p: PointXYZ<T>,
    first: Transform<S>,
    second: Transform<S>,
    widen: W,
    product: P,
    narrow: N,
)
    requires
        functional::<S>(),
        conversions_determined(widen, narrow),
        works_row_by_row(product),
        forall|i: int| 0 <= i < 3 ==> #[trigger] first[i] == second[i],
        is_image_of(a, p, first, widen, product, narrow),
        is_image_of(b, p, second, widen, product, narrow),
    ensures
        a == b,
{
    let (row, moved) = choose|row: [S; 4], moved: [S; 4]|
        {
            &&& is_row_of(row, p, widen)
            &&& #[trigger] call_ensures(product, (&first, &row), moved)
            &&& call_ensures(narrow, (moved[0],), a.x)
            &&& call_ensures(narrow, (moved[1],), a.y)
            &&& call_ensures(narrow, (moved[2],), a.z)
        };
    let (other, other_moved) = choose|row: [S; 4], moved: [S; 4]|
        {
            &&& is_row_of(row, p, widen)
            &&& #[trigger] call_ensures(product, (&second, &row), moved)
            &&& call_ensures(narrow, (moved[0],), b.x)
            &&& call_ensures(narrow, (moved[1],), b.y)
            &&& call_ensures(narrow, (moved[2],), b.z)
        };
    assert(row@ =~= other@);
    assert(row == other);
    assert(first[0] == second[0] && first[1] == second[1] && first[2] == second[2]);
    assert(moved[0] == other_moved[0]);
    assert(moved[1] == other_moved[1]);
    assert(moved[2] == other_moved[2]);
}

/// What a coordinate is turned into is settled by it, and the other way round.
pub open spec fn conversions_determined<T, S, W: Fn(T) -> S, N: Fn(S) -> T>(
    widen: W,
    narrow: N,
) -> bool {
    &&& forall|x: T, a: S, b: S| #[trigger]
        call_ensures(widen, (x,), a) && #[trigger] call_ensures(widen, (x,), b) ==> a == b
    &&& forall|x: S, a: T, b: T| #[trigger]
        call_ensures(narrow, (x,), a) && #[trigger] call_ensures(narrow, (x,), b) ==> a == b
}

/// Each number of a product is settled by the coordinates and its own row of the
/// transform.
pub open spec fn works_row_by_row<S, P: Fn(&Transform<S>, &[S; 4]) -> [S; 4]>(product: P) -> bool {
    forall|m: &Transform<S>, n: &Transform<S>, row: &[S; 4], a: [S; 4], b: [S; 4], i: int|
        #![trigger call_ensures(product, (m, row), a), call_ensures(product, (n, row), b), a[i]]
        call_ensures(product, (m, row), a) && call_ensures(product, (n, row), b) && 0 <= i < 4
            && m[i] == n[i] ==> a[i] == b[i]
}

} // verus!
