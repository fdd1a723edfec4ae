//! The mirror images and rotations of a cloud that are tried besides the cloud itself.
use vstd::prelude::*;

verus! {

/// A homogeneous transform with whole-number entries, row by row.
pub type Matrix4 = [[i32; 4]; 4];

/// A point with whole-number coordinates.
pub type IntPoint = (int, int, int);

/// Row `i` of `m` times the column of the point's coordinates and a one.
pub open spec fn row_times(m: Matrix4, i: int, p: IntPoint) -> int {
    m[i][0] * p.0 + m[i][1] * p.1 + m[i][2] * p.2 + m[i][3]
}

/// Where `m` takes a point.
pub open spec fn apply(m: Matrix4, p: IntPoint) -> IntPoint {
    (row_times(m, 0, p), row_times(m, 1, p), row_times(m, 2, p))
}

/// `m` is the homogeneous matrix of the map `f`.
pub open spec fn is_matrix_of(m: Matrix4, f: spec_fn(IntPoint) -> IntPoint) -> bool {
    &&& forall|p: IntPoint| #[trigger] apply(m, p) == f(p)
    &&& m[3] == [0i32, 0, 0, 1]
}

/// What an entry of zero, one or minus one makes of a coordinate.
proof fn lemma_entry(entry: i32, x: int)
    ensures
        entry == 0 ==> entry * x == 0,
        entry == 1 ==> entry * x == x,
        entry == -1 ==> entry * x == -x,
{
}

/// What the entries of row `i` make of a point's coordinates.
proof fn lemma_row(m: Matrix4, i: int, p: IntPoint)
    ensures
        m[i][0] == 0 ==> m[i][0] * p.0 == 0,
        m[i][0] == 1 ==> m[i][0] * p.0 == p.0,
        m[i][0] == -1 ==> m[i][0] * p.0 == -p.0,
        m[i][1] == 0 ==> m[i][1] * p.1 == 0,
        m[i][1] == 1 ==> m[i][1] * p.1 == p.1,
        m[i][1] == -1 ==> m[i][1] * p.1 == -p.1,
        m[i][2] == 0 ==> m[i][2] * p.2 == 0,
        m[i][2] == 1 ==> m[i][2] * p.2 == p.2,
        m[i][2] == -1 ==> m[i][2] * p.2 == -p.2,
{
    lemma_entry(m[i][0], p.0);
    lemma_entry(m[i][1], p.1);
    lemma_entry(m[i][2], p.2);
}

/// The mirror image that exchanges left and right.
pub open spec fn lr_flip(p: IntPoint) -> IntPoint {
    (p.0, -p.1, p.2)
}

/// The mirror image that exchanges up and down.
pub open spec fn ud_flip(p: IntPoint) -> IntPoint {
    (p.0, p.1, -p.2)
}

/// The mirror image that exchanges front and back.
pub open spec fn fb_flip(p: IntPoint) -> IntPoint {
    (-p.0, p.1, p.2)
}

/// The half turn about the z axis.
pub open spec fn rot_180_z(p: IntPoint) -> IntPoint {
    (-p.0, -p.1, p.2)
}

/// The half turn about the y axis.
pub open spec fn rot_180_y(p: IntPoint) -> IntPoint {
    (-p.0, p.1, -p.2)
}

/// The half turn about the x axis.
pub open spec fn rot_180_x(p: IntPoint) -> IntPoint {
    (p.0, -p.1, -p.2)
}

/// The right-handed quarter turn about the x axis: it takes y to z.
pub open spec fn rot_90_x(p: IntPoint) -> IntPoint {
    (p.0, -p.2, p.1)
}

/// The left-handed quarter turn about the x axis.
pub open spec fn rot_minus_90_x(p: IntPoint) -> IntPoint {
    (p.0, p.2, -p.1)
}

/// The right-handed quarter turn about the y axis: it takes z to x.
pub open spec fn rot_90_y(p: IntPoint) -> IntPoint {
    (p.2, p.1, -p.0)
}

/// The left-handed quarter turn about the y axis.
pub open spec fn rot_minus_90_y(p: IntPoint) -> IntPoint {
    (-p.2, p.1, p.0)
}

/// The right-handed quarter turn about the z axis: it takes x to y.
pub open spec fn rot_90_z(p: IntPoint) -> IntPoint {
    (-p.1, p.0, p.2)
}

/// The left-handed quarter turn about the z axis.
pub open spec fn rot_minus_90_z(p: IntPoint) -> IntPoint {
    (p.1, -p.0, p.2)
}

/// The matrix that exchanges left and right.
pub fn create_lr_flip_matrix() -> (m: Matrix4)
    ensures
        is_matrix_of(m, |p: IntPoint| lr_flip(p)),
{
    let m: Matrix4 = [[1, 0, 0, 0], [0, -1, 0, 0], [0, 0, 1, 0], [0, 0, 0, 1]];
    assert forall|p: IntPoint| #[trigger] apply(m, p) == lr_flip(p) by {
        lemma_row(m, 0, p);
        lemma_row(m, 1, p);
        lemma_row(m, 2, p);
    }
    m
}

/// The matrix that exchanges up and down.
pub fn create_ud_flip_matrix() -> (m: Matrix4)
    ensures
        is_matrix_of(m, |p: IntPoint| ud_flip(p)),
{
    let m: Matrix4 = [[1, 0, 0, 0], [0, 1, 0, 0], [0, 0, -1, 0], [0, 0, 0, 1]];
    assert forall|p: IntPoint| #[trigger] apply(m, p) == ud_flip(p) by {
        lemma_row(m, 0, p);
        lemma_row(m, 1, p);
        lemma_row(m, 2, p);
    }
    m
}

/// The matrix that exchanges front and back.
pub fn create_fb_flip_matrix() -> (m: Matrix4)
    ensures
        is_matrix_of(m, |p: IntPoint| fb_flip(p)),
{
    let m: Matrix4 = [[-1, 0, 0, 0], [0, 1, 0, 0], [0, 0, 1, 0], [0, 0, 0, 1]];
    assert forall|p: IntPoint| #[trigger] apply(m, p) == fb_flip(p) by {
        lemma_row(m, 0, p);
        lemma_row(m, 1, p);
        lemma_row(m, 2, p);
    }
    m
}

/// The matrix of the half turn about the z axis.
pub fn create_rot_180_z_matrix() -> (m: Matrix4)
    ensures
        is_matrix_of(m, |p: IntPoint| rot_180_z(p)),
{
    let m: Matrix4 = [[-1, 0, 0, 0], [0, -1, 0, 0], [0, 0, 1, 0], [0, 0, 0, 1]];
    assert forall|p: IntPoint| #[trigger] apply(m, p) == rot_180_z(p) by {
        lemma_row(m, 0, p);
        lemma_row(m, 1, p);
        lemma_row(m, 2, p);
    }
    m
}

/// The matrix of the half turn about the y axis.
pub fn create_rot_180_y_matrix() -> (m: Matrix4)
    ensures
        is_matrix_of(m, |p: IntPoint| rot_180_y(p)),
{
    let m: Matrix4 = [[-1, 0, 0, 0], [0, 1, 0, 0], [0, 0, -1, 0], [0, 0, 0, 1]];
    assert forall|p: IntPoint| #[trigger] apply(m, p) == rot_180_y(p) by {
        lemma_row(m, 0, p);
        lemma_row(m, 1, p);
        lemma_row(m, 2, p);
    }
    m
}

/// The matrix of the half turn about the x axis.
pub fn create_rot_180_x_matrix() -> (m: Matrix4)
    ensures
        is_matrix_of(m, |p: IntPoint| rot_180_x(p)),
{
    let m: Matrix4 = [[1, 0, 0, 0], [0, -1, 0, 0], [0, 0, -1, 0], [0, 0, 0, 1]];
    assert forall|p: IntPoint| #[trigger] apply(m, p) == rot_180_x(p) by {
        lemma_row(m, 0, p);
        lemma_row(m, 1, p);
        lemma_row(m, 2, p);
    }
    m
}

/// The matrix of the right-handed quarter turn about the x axis.
pub fn create_rot_90_x_matrix() -> (m: Matrix4)
    ensures
        is_matrix_of(m, |p: IntPoint| rot_90_x(p)),
{
    let m: Matrix4 = [[1, 0, 0, 0], [0, 0, -1, 0], [0, 1, 0, 0], [0, 0, 0, 1]];
    assert forall|p: IntPoint| #[trigger] apply(m, p) == rot_90_x(p) by {
        lemma_row(m, 0, p);
        lemma_row(m, 1, p);
        lemma_row(m, 2, p);
    }
    m
}

/// The matrix of the left-handed quarter turn about the x axis.
pub fn create_rot_minus_90_x_matrix() -> (m: Matrix4)
    ensures
        is_matrix_of(m, |p: IntPoint| rot_minus_90_x(p)),
{
    let m: Matrix4 = [[1, 0, 0, 0], [0, 0, 1, 0], [0, -1, 0, 0], [0, 0, 0, 1]];
    assert forall|p: IntPoint| #[trigger] apply(m, p) == rot_minus_90_x(p) by {
        lemma_row(m, 0, p);
        lemma_row(m, 1, p);
        lemma_row(m, 2, p);
    }
    m
}

/// The matrix of the right-handed quarter turn about the y axis.
pub fn create_rot_90_y_matrix() -> (m: Matrix4)
    ensures
        is_matrix_of(m, |p: IntPoint| rot_90_y(p)),
{
    let m: Matrix4 = [[0, 0, 1, 0], [0, 1, 0, 0], [-1, 0, 0, 0], [0, 0, 0, 1]];
    assert forall|p: IntPoint| #[trigger] apply(m, p) == rot_90_y(p) by {
        lemma_row(m, 0, p);
        lemma_row(m, 1, p);
        lemma_row(m, 2, p);
    }
    m
}

/// The matrix of the left-handed quarter turn about the y axis.
pub fn create_rot_minus_90_y_matrix() -> (m: Matrix4)
    ensures
        is_matrix_of(m, |p: IntPoint| rot_minus_90_y(p)),
{
    let m: Matrix4 = [[0, 0, -1, 0], [0, 1, 0, 0], [1, 0, 0, 0], [0, 0, 0, 1]];
    assert forall|p: IntPoint| #[trigger] apply(m, p) == rot_minus_90_y(p) by {
        lemma_row(m, 0, p);
        lemma_row(m, 1, p);
        lemma_row(m, 2, p);
    }
    m
}

/// The matrix of the right-handed quarter turn about the z axis.
pub fn create_rot_90_z_matrix() -> (m: Matrix4)
    ensures
        is_matrix_of(m, |p: IntPoint| rot_90_z(p)),
{
    let m: Matrix4 = [[0, -1, 0, 0], [1, 0, 0, 0], [0, 0, 1, 0], [0, 0, 0, 1]];
    assert forall|p: IntPoint| #[trigger] apply(m, p) == rot_90_z(p) by {
        lemma_row(m, 0, p);
        lemma_row(m, 1, p);
        lemma_row(m, 2, p);
    }
    m
}

/// The matrix of the left-handed quarter turn about the z axis.
pub fn create_rot_minus_90_z_matrix() -> (m: Matrix4)
    ensures
        is_matrix_of(m, |p: IntPoint| rot_minus_90_z(p)),
{
    let m: Matrix4 = [[0, 1, 0, 0], [-1, 0, 0, 0], [0, 0, 1, 0], [0, 0, 0, 1]];
    assert forall|p: IntPoint| #[trigger] apply(m, p) == rot_minus_90_z(p) by {
        lemma_row(m, 0, p);
        lemma_row(m, 1, p);
        lemma_row(m, 2, p);
    }
    m
}

/// A transform that is tried, with the name that its results carry.
pub struct Hypothesis {
    pub label: &'static str,
    pub matrix: Matrix4,
}

/// `h` tries the map `f` under the name `label`.
pub open spec fn tries(
    h: Hypothesis,
    label: Seq<char>,
    f: spec_fn(IntPoint) -> IntPoint,
) -> bool {
    h.label@ == label && is_matrix_of(h.matrix, f)
}

/// The transforms that are tried, in their order.
pub fn hypotheses() -> (hypotheses: Vec<Hypothesis>)
    ensures
        hypotheses@.len() == 12,
        tries(hypotheses@[0], "LR_Flip_Reverse-Y"@, |p: IntPoint| lr_flip(p)),
        tries(hypotheses@[1], "UD_Flip_Reverse-Z"@, |p: IntPoint| ud_flip(p)),
        tries(hypotheses@[2], "Front-Back_Flip_Reverse-X"@, |p: IntPoint| fb_flip(p)),
        tries(hypotheses@[3], "Rot_180_Z"@, |p: IntPoint| rot_180_z(p)),
        tries(hypotheses@[4], "Rot_180_Y"@, |p: IntPoint| rot_180_y(p)),
        tries(hypotheses@[5], "Rot_180_X"@, |p: IntPoint| rot_180_x(p)),
        tries(hypotheses@[6], "Rot_90_X"@, |p: IntPoint| rot_90_x(p)),
        tries(hypotheses@[7], "Rot_-90_X"@, |p: IntPoint| rot_minus_90_x(p)),
        tries(hypotheses@[8], "Rot_90_Y"@, |p: IntPoint| rot_90_y(p)),
        tries(hypotheses@[9], "Rot_-90_Y"@, |p: IntPoint| rot_minus_90_y(p)),
        tries(hypotheses@[10], "Rot_90_Z"@, |p: IntPoint| rot_90_z(p)),
        tries(hypotheses@[11], "Rot_-90_Z"@, |p: IntPoint| rot_minus_90_z(p)),
{
    let mut hypotheses: Vec<Hypothesis> = Vec::new();
    let matrix: Matrix4 = create_lr_flip_matrix();
    hypotheses.push(Hypothesis { label: "LR_Flip_Reverse-Y", matrix });
    let matrix: Matrix4 = create_ud_flip_matrix();
    hypotheses.push(Hypothesis { label: "UD_Flip_Reverse-Z", matrix });
    let matrix: Matrix4 = create_fb_flip_matrix();
    hypotheses.push(Hypothesis { label: "Front-Back_Flip_Reverse-X", matrix });
    let matrix: Matrix4 = create_rot_180_z_matrix();
    hypotheses.push(Hypothesis { label: "Rot_180_Z", matrix });
    let matrix: Matrix4 = create_rot_180_y_matrix();
    hypotheses.push(Hypothesis { label: "Rot_180_Y", matrix });
    let matrix: Matrix4 = create_rot_180_x_matrix();
    hypotheses.push(Hypothesis { label: "Rot_180_X", matrix });
    let matrix: Matrix4 = create_rot_90_x_matrix();
    hypotheses.push(Hypothesis { label: "Rot_90_X", matrix });
    let matrix: Matrix4 = create_rot_minus_90_x_matrix();
    hypotheses.push(Hypothesis { label: "Rot_-90_X", matrix });
    let matrix: Matrix4 = create_rot_90_y_matrix();
    hypotheses.push(Hypothesis { label: "Rot_90_Y", matrix });
    let matrix: Matrix4 = create_rot_minus_90_y_matrix();
    hypotheses.push(Hypothesis { label: "Rot_-90_Y", matrix });
    let matrix: Matrix4 = create_rot_90_z_matrix();
    hypotheses.push(Hypothesis { label: "Rot_90_Z", matrix });
    let matrix: Matrix4 = create_rot_minus_90_z_matrix();
    hypotheses.push(Hypothesis { label: "Rot_-90_Z", matrix });
    hypotheses
}

/// A map has one homogeneous matrix.
pub proof fn law_map_determines_matrix(
    a: Matrix4,
    b: Matrix4,
    f: spec_fn(IntPoint) -> IntPoint,
)
    requires
        is_matrix_of(a, f),
        is_matrix_of(b, f),
    ensures
        a == b,
{
    let (o, x, y, z) = (
        (0int, 0int, 0int),
        (1int, 0int, 0int),
        (0int, 1int, 0int),
        (0int, 0int, 1int),
    );
    assert(apply(a, o) == apply(b, o));
    assert(apply(a, x) == apply(b, x));
    assert(apply(a, y) == apply(b, y));
    assert(apply(a, z) == apply(b, z));
    assert forall|i: int| 0 <= i < 3 implies #[trigger] a[i] == b[i] by {
        lemma_columns(a, i);
        lemma_columns(b, i);
        assert(row_times(a, i, o) == row_times(b, i, o));
        assert(row_times(a, i, x) == row_times(b, i, x));
        assert(row_times(a, i, y) == row_times(b, i, y));
        assert(row_times(a, i, z) == row_times(b, i, z));
        assert(a[i]@ =~= b[i]@);
    }
    assert(a@ =~= b@);
}

/// The origin and the unit points read a row's entries.
proof fn lemma_columns(m: Matrix4, i: int)
    ensures
        row_times(m, i, (0, 0, 0)) == m[i][3],
        row_times(m, i, (1, 0, 0)) == m[i][0] + m[i][3],
        row_times(m, i, (0, 1, 0)) == m[i][1] + m[i][3],
        row_times(m, i, (0, 0, 1)) == m[i][2] + m[i][3],
{
    lemma_factor(m[i][0]);
    lemma_factor(m[i][1]);
    lemma_factor(m[i][2]);
}

/// What a coordinate of zero or one makes of an entry.
proof fn lemma_factor(entry: i32)
    ensures
        entry * 0 == 0,
        entry * 1 == entry,
{
}

/// A mirror image of a mirror image is the original.
pub proof fn law_flips_undo_themselves(p: IntPoint)
    ensures
        lr_flip(lr_flip(p)) == p,
        ud_flip(ud_flip(p)) == p,
        fb_flip(fb_flip(p)) == p,
{
}

/// The left-handed quarter turns undo the right-handed ones and the other way round.
pub proof fn law_quarter_turns_undo_each_other(p: IntPoint)
    ensures
        rot_minus_90_x(rot_90_x(p)) == p,
        rot_90_x(rot_minus_90_x(p)) == p,
        rot_minus_90_y(rot_90_y(p)) == p,
        rot_90_y(rot_minus_90_y(p)) == p,
        rot_minus_90_z(rot_90_z(p)) == p,
        rot_90_z(rot_minus_90_z(p)) == p,
{
}

/// A half turn is two quarter turns of the same hand about the same axis.
pub proof fn law_half_turns_are_two_quarter_turns(p: IntPoint)
    ensures
        rot_180_x(p) == rot_90_x(rot_90_x(p)),
        rot_180_x(p) == rot_minus_90_x(rot_minus_90_x(p)),
        rot_180_y(p) == rot_90_y(rot_90_y(p)),
        rot_180_y(p) == rot_minus_90_y(rot_minus_90_y(p)),
        rot_180_z(p) == rot_90_z(rot_90_z(p)),
        rot_180_z(p) == rot_minus_90_z(rot_minus_90_z(p)),
{
}

/// A half turn is the two mirror images across its axis, one after the other.
pub proof fn law_half_turns_are_two_flips(p: IntPoint)
    ensures
        rot_180_x(p) == lr_flip(ud_flip(p)),
        rot_180_y(p) == ud_flip(fb_flip(p)),
        rot_180_z(p) == lr_flip(fb_flip(p)),
{
}

/// The square of the distance between two points.
pub open spec fn square_distance(p: IntPoint, q: IntPoint) -> int {
    (p.0 - q.0) * (p.0 - q.0) + (p.1 - q.1) * (p.1 - q.1) + (p.2 - q.2) * (p.2 - q.2)
}

/// Every transform that is tried keeps all distances.
pub proof fn law_hypotheses_are_rigid(p: IntPoint, q: IntPoint)
    ensures
        square_distance(lr_flip(p), lr_flip(q)) == square_distance(p, q),
        square_distance(ud_flip(p), ud_flip(q)) == square_distance(p, q),
        square_distance(fb_flip(p), fb_flip(q)) == square_distance(p, q),
        square_distance(rot_180_z(p), rot_180_z(q)) == square_distance(p, q),
        square_distance(rot_180_y(p), rot_180_y(q)) == square_distance(p, q),
        square_distance(rot_180_x(p), rot_180_x(q)) == square_distance(p, q),
        square_distance(rot_90_x(p), rot_90_x(q)) == square_distance(p, q),
        square_distance(rot_minus_90_x(p), rot_minus_90_x(q)) == square_distance(p, q),
        square_distance(rot_90_y(p), rot_90_y(q)) == square_distance(p, q),
        square_distance(rot_minus_90_y(p), rot_minus_90_y(q)) == square_distance(p, q),
        square_distance(rot_90_z(p), rot_90_z(q)) == square_distance(p, q),
        square_distance(rot_minus_90_z(p), rot_minus_90_z(q)) == square_distance(p, q),
{
    assert forall|a: int, b: int| #[trigger] ((-a - -b) * (-a - -b)) == (a - b) * (a - b) by {
        assert((-a - -b) * (-a - -b) == (a - b) * (a - b)) by (nonlinear_arith);
    }
}

/// Six times the signed volume of the tetrahedron of the origin and three points.
pub open spec fn triple_product(a: IntPoint, b: IntPoint, c: IntPoint) -> int {
    a.0 * (b.1 * c.2 - b.2 * c.1) + a.1 * (b.2 * c.0 - b.0 * c.2) + a.2 * (b.0 * c.1 - b.1 * c.0)
}

/// The rotations keep the handedness of three points, the mirror images reverse it.
pub proof fn law_handedness(a: IntPoint, b: IntPoint, c: IntPoint)
    ensures
        triple_product(lr_flip(a), lr_flip(b), lr_flip(c)) == -triple_product(a, b, c),
        triple_product(ud_flip(a), ud_flip(b), ud_flip(c)) == -triple_product(a, b, c),
        triple_product(fb_flip(a), fb_flip(b), fb_flip(c)) == -triple_product(a, b, c),
        triple_product(rot_180_z(a), rot_180_z(b), rot_180_z(c)) == triple_product(a, b, c),
        triple_product(rot_180_y(a), rot_180_y(b), rot_180_y(c)) == triple_product(a, b, c),
        triple_product(rot_180_x(a), rot_180_x(b), rot_180_x(c)) == triple_product(a, b, c),
        triple_product(rot_90_x(a), rot_90_x(b), rot_90_x(c)) == triple_product(a, b, c),
        triple_product(rot_minus_90_x(a), rot_minus_90_x(b), rot_minus_90_x(c)) == triple_product(a, b, c),
        triple_product(rot_90_y(a), rot_90_y(b), rot_90_y(c)) == triple_product(a, b, c),
        triple_product(rot_minus_90_y(a), rot_minus_90_y(b), rot_minus_90_y(c)) == triple_product(a, b, c),
        triple_product(rot_90_z(a), rot_90_z(b), rot_90_z(c)) == triple_product(a, b, c),
        triple_product(rot_minus_90_z(a), rot_minus_90_z(b), rot_minus_90_z(c)) == triple_product(a, b, c),
{
    assert(triple_product(lr_flip(a), lr_flip(b), lr_flip(c)) == -triple_product(a, b, c)) by (nonlinear_arith);
    assert(triple_product(ud_flip(a), ud_flip(b), ud_flip(c)) == -triple_product(a, b, c)) by (nonlinear_arith);
    assert(triple_product(fb_flip(a), fb_flip(b), fb_flip(c)) == -triple_product(a, b, c)) by (nonlinear_arith);
    assert(triple_product(rot_180_z(a), rot_180_z(b), rot_180_z(c)) == triple_product(a, b, c)) by (nonlinear_arith);
    assert(triple_product(rot_180_y(a), rot_180_y(b), rot_180_y(c)) == triple_product(a, b, c)) by (nonlinear_arith);
    assert(triple_product(rot_180_x(a), rot_180_x(b), rot_180_x(c)) == triple_product(a, b, c)) by (nonlinear_arith);
    assert(triple_product(rot_90_x(a), rot_90_x(b), rot_90_x(c)) == triple_product(a, b, c)) by (nonlinear_arith);
    assert(triple_product(rot_minus_90_x(a), rot_minus_90_x(b), rot_minus_90_x(c)) == triple_product(a, b, c)) by (nonlinear_arith);
    assert(triple_product(rot_90_y(a), rot_90_y(b), rot_90_y(c)) == triple_product(a, b, c)) by (nonlinear_arith);
    assert(triple_product(rot_minus_90_y(a), rot_minus_90_y(b), rot_minus_90_y(c)) == triple_product(a, b, c)) by (nonlinear_arith);
    assert(triple_product(rot_90_z(a), rot_90_z(b), rot_90_z(c)) == triple_product(a, b, c)) by (nonlinear_arith);
    assert(triple_product(rot_minus_90_z(a), rot_minus_90_z(b), rot_minus_90_z(c)) == triple_product(a, b, c)) by (nonlinear_arith);
}

} // verus!
