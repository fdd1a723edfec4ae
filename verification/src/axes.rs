//! What the transforms that are tried do about the axes that their names tell.
use crate::hypotheses::{
    apply, fb_flip, hypotheses, lr_flip, rot_180_x, rot_180_y, rot_180_z, rot_90_x, rot_90_y,
    rot_90_z, rot_minus_90_x, rot_minus_90_y, rot_minus_90_z, ud_flip, Hypothesis, IntPoint,
};
use vstd::prelude::*;

verus! {

/// The inner product.
pub open spec fn int_dot(a: IntPoint, b: IntPoint) -> int {
    a.0 * b.0 + a.1 * b.1 + a.2 * b.2
}

/// The cross product.
pub open spec fn int_cross(a: IntPoint, b: IntPoint) -> IntPoint {
    (a.1 * b.2 - a.2 * b.1, a.2 * b.0 - a.0 * b.2, a.0 * b.1 - a.1 * b.0)
}

/// The part of a point along the unit vector `e`.
pub open spec fn along(e: IntPoint, p: IntPoint) -> IntPoint {
    (int_dot(e, p) * e.0, int_dot(e, p) * e.1, int_dot(e, p) * e.2)
}

/// The mirror image of a point in the plane at right angles to the unit vector `e`.
pub open spec fn mirrored(e: IntPoint, p: IntPoint) -> IntPoint {
    let a = along(e, p);
    (p.0 - 2 * a.0, p.1 - 2 * a.1, p.2 - 2 * a.2)
}

/// A point after a half turn about the unit vector `e`.
pub open spec fn half_turned(e: IntPoint, p: IntPoint) -> IntPoint {
    let a = along(e, p);
    (2 * a.0 - p.0, 2 * a.1 - p.1, 2 * a.2 - p.2)
}

/// A point after a quarter turn about the unit vector `e` by the right hand: what is across
/// `e` becomes its cross product with `e`.
pub open spec fn right_turned(e: IntPoint, p: IntPoint) -> IntPoint {
    let (a, c) = (along(e, p), int_cross(e, p));
    (a.0 + c.0, a.1 + c.1, a.2 + c.2)
}

/// A point after a quarter turn about the unit vector `e` by the left hand.
pub open spec fn left_turned(e: IntPoint, p: IntPoint) -> IntPoint {
    let (a, c) = (along(e, p), int_cross(e, p));
    (a.0 - c.0, a.1 - c.1, a.2 - c.2)
}

/// The unit vector along the axis that a letter names.
pub open spec fn axis_named(letter: char) -> IntPoint {
    if letter == 'X' {
        (1, 0, 0)
    } else if letter == 'Y' {
        (0, 1, 0)
    } else {
        (0, 0, 1)
    }
}

/// The text starts with the other.
pub open spec fn starts_with(text: Seq<char>, start: Seq<char>) -> bool {
    &&& start.len() <= text.len()
    &&& forall|i: int| 0 <= i < start.len() ==> text[i] == #[trigger] start[i]
}

/// What the name of a transform says that it does to a point: the last letter is the axis,
/// and a turn says by how many degrees; without a turn it is a mirror image.
pub open spec fn as_named(label: Seq<char>, p: IntPoint) -> IntPoint {
    let e = axis_named(label.last());
    if starts_with(label, "Rot_90_"@) {
        right_turned(e, p)
    } else if starts_with(label, "Rot_-90_"@) {
        left_turned(e, p)
    } else if starts_with(label, "Rot_180_"@) {
        half_turned(e, p)
    } else {
        mirrored(e, p)
    }
}

/// The turns are about their axes, the quarter turns by the hand that they are named for, and
/// the mirror images exchange the sides of their axes.
pub proof fn law_maps_follow_their_axes(p: IntPoint)
    ensures
        fb_flip(p) == mirrored((1, 0, 0), p),
        lr_flip(p) == mirrored((0, 1, 0), p),
        ud_flip(p) == mirrored((0, 0, 1), p),
        rot_180_x(p) == half_turned((1, 0, 0), p),
        rot_180_y(p) == half_turned((0, 1, 0), p),
        rot_180_z(p) == half_turned((0, 0, 1), p),
        rot_90_x(p) == right_turned((1, 0, 0), p),
        rot_90_y(p) == right_turned((0, 1, 0), p),
        rot_90_z(p) == right_turned((0, 0, 1), p),
        rot_minus_90_x(p) == left_turned((1, 0, 0), p),
        rot_minus_90_y(p) == left_turned((0, 1, 0), p),
        rot_minus_90_z(p) == left_turned((0, 0, 1), p),
{
    lemma_axis(p, (1, 0, 0));
    lemma_axis(p, (0, 1, 0));
    lemma_axis(p, (0, 0, 1));
}

/// What a unit vector along an axis makes of a point.
proof fn lemma_axis(p: IntPoint, e: IntPoint)
    requires
        e == (1int, 0int, 0int) || e == (0int, 1int, 0int) || e == (0int, 0int, 1int),
    ensures
        along(e, p) == (e.0 * p.0, e.1 * p.1, e.2 * p.2),
        e == (1int, 0int, 0int) ==> int_cross(e, p) == (0int, -p.2, p.1) && along(e, p) == (p.0, 0int, 0int),
        e == (0int, 1int, 0int) ==> int_cross(e, p) == (p.2, 0int, -p.0) && along(e, p) == (0int, p.1, 0int),
        e == (0int, 0int, 1int) ==> int_cross(e, p) == (-p.1, p.0, 0int) && along(e, p) == (0int, 0int, p.2),
{
    let (x, y, z) = p;
    assert(int_dot(e, p) == e.0 * x + e.1 * y + e.2 * z);
    if e == (1int, 0int, 0int) {
        assert(int_dot(e, p) == x);
        assert(along(e, p) == (x, 0int, 0int));
    } else if e == (0int, 1int, 0int) {
        assert(int_dot(e, p) == y);
        assert(along(e, p) == (0int, y, 0int));
    } else {
        assert(int_dot(e, p) == z);
        assert(along(e, p) == (0int, 0int, z));
    }
}

/// Every transform that is tried does what its name says.
pub proof fn law_names_tell_what_is_tried(tried: Vec<Hypothesis>, i: int, p: IntPoint)
    requires
        call_ensures(hypotheses, (), tried),
        0 <= i < tried@.len(),
    ensures
        apply(tried@[i].matrix, p) == as_named(tried@[i].label@, p),
{
    law_maps_follow_their_axes(p);
    reveal_strlit("LR_Flip_Reverse-Y");
    reveal_strlit("UD_Flip_Reverse-Z");
    reveal_strlit("Front-Back_Flip_Reverse-X");
    reveal_strlit("Rot_180_Z");
    reveal_strlit("Rot_180_Y");
    reveal_strlit("Rot_180_X");
    reveal_strlit("Rot_90_X");
    reveal_strlit("Rot_-90_X");
    reveal_strlit("Rot_90_Y");
    reveal_strlit("Rot_-90_Y");
    reveal_strlit("Rot_90_Z");
    reveal_strlit("Rot_-90_Z");
    reveal_strlit("Rot_90_");
    reveal_strlit("Rot_-90_");
    reveal_strlit("Rot_180_");
    let label = tried@[i].label@;
    let (right, left, half) = ("Rot_90_"@, "Rot_-90_"@, "Rot_180_"@);
    assert(right[0] == 'R' && left[0] == 'R' && half[0] == 'R');
    assert(right[4] == '9' && left[4] == '-' && half[4] == '1');
    if i < 3 {
        assert(label[0] != 'R');
    } else if i < 6 {
        assert(label[4] == '1');
        assert(starts_with(label, half));
    } else if i % 2 == 0 {
        assert(label[4] == '9');
        assert(starts_with(label, right));
    } else {
        assert(label[4] == '-');
        assert(starts_with(label, left));
    }
}

/// There are twelve transforms, and no two of them do the same.
pub proof fn law_trials_differ(tried: Vec<Hypothesis>, i: int, j: int)
    requires
        call_ensures(hypotheses, (), tried),
        0 <= i < tried@.len(),
        0 <= j < tried@.len(),
        forall|p: IntPoint| #[trigger]
            apply(tried@[i].matrix, p) == apply(tried@[j].matrix, p),
    ensures
        tried@.len() == 12,
        i == j,
{
    let p = (1int, 2int, 3int);
    assert(apply(tried@[i].matrix, p) == apply(tried@[j].matrix, p));
}

} // verus!
