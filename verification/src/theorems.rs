//! What holds of the creature in every state.

use vstd::prelude::*;
use crate::fixed::{magnitude, toward_zero, Vector, UNIT};
use crate::life::{in_box, Corner, LifeState, GRAIN, MAX_TURN, NANOS_PER_UPDATE, PIXEL, STRIDE};
use crate::turn::{
    cosine_of, is_unit_pair, lemma_small_turn, lemma_turned_length, lemma_unit_pair,
    lemma_wrapped_fixed, lemma_wrapped_sum, sine_of,
};

verus! {

/// A turn by any angle keeps every corner exactly as far from the position
/// as it was.
pub proof fn lemma_rotation_keeps_radius(s: LifeState, angle: int, i: int)
    requires
        0 <= i < s.shape.len(),
    ensures
        s.rotated(angle).shape[i].radius == s.shape[i].radius,
        s.rotated(angle).shape[i].reach() == s.shape[i].reach(),
{
}

/// Every corner that does not lie on the position is drawn as far from it
/// as it is, within a hundred-thousandth of the squared distance: rounding
/// to whole steps brings it no farther and hardly nearer.
pub proof fn lemma_offset_length(c: Corner)
    requires
        c.wf(),
        c.radius > 0,
    ensures
        c.offset().norm_sq() <= c.reach() * c.reach(),
        100_000 * (c.reach() * c.reach() - c.offset().norm_sq()) < c.reach() * c.reach(),
{
    let len = c.reach();
    let u = UNIT as int;
    let flat = Vector { x: len, y: 0 };
    let off = c.offset();
    c.lemma_offset_within();
    lemma_unit_pair(c.angle as int);
    lemma_turned_length(cosine_of(c.angle as int), sine_of(c.angle as int), flat);
    assert(flat.norm_sq() == len * len) by (nonlinear_arith)
        requires
            flat.norm_sq() == flat.x * flat.x + flat.y * flat.y,
            flat.x == len,
            flat.y == 0,
    ;
    off.lemma_coordinates_within(len);
    assert(len >= 1_000_000) by (nonlinear_arith)
        requires
            len == c.radius * GRAIN,
            c.radius >= 1,
            GRAIN == 1_000_000,
    ;
    let n = len * len;
    let d = n - off.norm_sq();
    let a = magnitude(off.x);
    let b = magnitude(off.y);
    assert(u * d < 2 * n + 2 * u * (2 * len + 1)) by (nonlinear_arith)
        requires
            u * d < 2 * n + 2 * u * (a + b + 1),
            a <= len,
            b <= len,
            u > 0,
    ;
    assert(100_000 * d < n) by (nonlinear_arith)
        requires
            u * d < 2 * n + 2 * u * (2 * len + 1),
            n == len * len,
            len >= 1_000_000,
            u == 1_000_000_000,
    ;
}

/// A turn by any angle keeps every corner that does not lie on the position
/// as far from it as it was, seen in whole steps too: before and after, the
/// squared distance drawn lies within a hundred-thousandth of the squared
/// distance held, which the turn does not change.
pub proof fn lemma_rotation_keeps_distance(s: LifeState, angle: int, i: int)
    requires
        s.wf(),
        0 <= i < 3,
        s.shape[i].radius > 0,
    ensures
        s.rotated(angle).shape[i].reach() == s.shape[i].reach(),
        100_000 * magnitude(
            s.rotated(angle).shape[i].offset().norm_sq() - s.shape[i].offset().norm_sq(),
        ) < s.shape[i].reach() * s.shape[i].reach(),
{
    s.shape[i].lemma_turned_wf(angle);
    lemma_offset_length(s.shape[i]);
    lemma_offset_length(s.shape[i].turned(angle));
}

/// Every angle that the clock may draw turns the creature the way of the
/// angle and by no more: the sine has the sign of the angle and is no
/// larger, and the cosine is positive.
pub proof fn lemma_drawn_turn_is_gentle(angle: int)
    requires
        -MAX_TURN <= angle < MAX_TURN,
    ensures
        angle >= 0 ==> 0 <= sine_of(angle) <= angle,
        angle <= 0 ==> angle <= sine_of(angle) <= 0,
        0 < cosine_of(angle) <= UNIT,
{
    lemma_small_turn(angle);
}

/// A turn keeps a well-formed creature well formed.
pub proof fn lemma_rotated_wf(s: LifeState, angle: int)
    requires
        s.wf(),
    ensures
        s.rotated(angle).wf(),
{
    let r = s.rotated(angle);
    assert forall|i: int| 0 <= i < 3 implies (#[trigger] r.shape[i]).wf() by {
        s.shape[i].lemma_turned_wf(angle);
    }
    lemma_unit_pair(s.shape[0].turned(angle).angle as int);
}

/// After a turn the heading is of length `UNIT` within a tolerance, wherever
/// the first corner lies: it is no longer, and its squared length falls
/// short of the square of `UNIT` by at most twice `UNIT`, which is about one
/// step of length.
pub proof fn lemma_heading_is_unit(s: LifeState, angle: int)
    ensures
        is_unit_pair(s.rotated(angle).head_dir.x, s.rotated(angle).head_dir.y),
        UNIT * UNIT - 2 * UNIT <= s.rotated(angle).head_dir.norm_sq() <= UNIT * UNIT,
{
    lemma_unit_pair(s.shape[0].turned(angle).angle as int);
}

/// The heading points at the first corner: where that corner is drawn is the
/// heading stretched to the corner's distance, rounded toward zero.
pub proof fn lemma_heading_points_at_first_corner(s: LifeState, angle: int)
    requires
        s.shape.len() > 0,
    ensures
        s.rotated(angle).head_dir == s.rotated(angle).shape[0].heading(),
        s.rotated(angle).shape[0].offset().x == toward_zero(
            s.rotated(angle).head_dir.x * s.rotated(angle).shape[0].reach(),
            UNIT as int,
        ),
        s.rotated(angle).shape[0].offset().y == toward_zero(
            s.rotated(angle).head_dir.y * s.rotated(angle).shape[0].reach(),
            UNIT as int,
        ),
{
    let c = s.rotated(angle).shape[0];
    let h = c.heading();
    assert(h.x * c.reach() - h.y * 0 == h.x * c.reach()) by (nonlinear_arith);
    assert(h.y * c.reach() + h.x * 0 == h.y * c.reach()) by (nonlinear_arith);
}

/// Turning by an angle and back by the same angle restores the shape and
/// the heading exactly.
pub proof fn lemma_turn_and_back(s: LifeState, angle: int)
    requires
        s.wf(),
    ensures
        s.rotated(angle).rotated(-angle).shape == s.shape,
        s.rotated(angle).rotated(-angle).head_dir == s.shape[0].heading(),
{
    let back = s.rotated(angle).rotated(-angle);
    assert forall|i: int| 0 <= i < 3 implies back.shape[i] == s.shape[i] by {
        let c = s.shape[i];
        c.lemma_turned_wf(angle);
        c.turned(angle).lemma_turned_wf(-angle);
        lemma_wrapped_sum(c.angle + angle, -angle);
        lemma_wrapped_fixed(c.angle as int);
    }
    assert(back.shape =~= s.shape);
}

/// Two turns in a row are one turn by the sum of their angles.
pub proof fn lemma_turns_add(s: LifeState, first: int, second: int)
    requires
        s.wf(),
    ensures
        s.rotated(first).rotated(second) == s.rotated(first + second),
{
    let twice = s.rotated(first).rotated(second);
    let once = s.rotated(first + second);
    assert forall|i: int| 0 <= i < 3 implies twice.shape[i] == once.shape[i] by {
        let c = s.shape[i];
        c.lemma_turned_wf(first);
        c.turned(first).lemma_turned_wf(second);
        c.lemma_turned_wf(first + second);
        lemma_wrapped_sum(c.angle + first, second);
    }
    assert(twice.shape =~= once.shape);
}

/// A turn by no angle changes no corner.
pub proof fn lemma_no_turn(s: LifeState)
    requires
        s.wf(),
    ensures
        s.rotated(0).shape == s.shape,
{
    assert forall|i: int| 0 <= i < 3 implies s.rotated(0).shape[i] == s.shape[i] by {
        lemma_wrapped_fixed(s.shape[i].angle as int);
    }
    assert(s.rotated(0).shape =~= s.shape);
}

/// The displacement from `from` to `to`.
pub open spec fn displacement(from: Vector, to: Vector) -> Vector {
    Vector { x: to.x - from.x, y: to.y - from.y }
}

/// A step moves the creature by exactly its heading, a pixel for a heading
/// of length `UNIT`, and remembers where it came from. So a well-formed
/// creature steps one pixel within the tolerance of its heading: no
/// farther, and short by at most two parts in `UNIT` of the squared length.
pub proof fn lemma_step_is_heading(s: LifeState)
    ensures
        displacement(s.position, s.stepped().position) == s.head_dir.times(STRIDE as int),
        s.stepped().last_position == s.position,
        s.wf() ==> STRIDE * STRIDE * (UNIT * UNIT - 2 * UNIT) <= displacement(
            s.position,
            s.stepped().position,
        ).norm_sq() <= PIXEL * PIXEL,
{
    let h = s.head_dir;
    let d = displacement(s.position, s.stepped().position);
    assert(d.norm_sq() == STRIDE * STRIDE * h.norm_sq()) by (nonlinear_arith)
        requires
            d.x == h.x * STRIDE,
            d.y == h.y * STRIDE,
            d.norm_sq() == d.x * d.x + d.y * d.y,
            h.norm_sq() == h.x * h.x + h.y * h.y,
    ;
    if s.wf() {
        assert(STRIDE * STRIDE * (UNIT * UNIT - 2 * UNIT) <= STRIDE * STRIDE * h.norm_sq()
            <= PIXEL * PIXEL) by (nonlinear_arith)
            requires
                UNIT * UNIT - 2 * UNIT <= h.norm_sq() <= UNIT * UNIT,
                STRIDE == 1000,
                UNIT == 1_000_000_000,
                PIXEL == 1_000_000_000_000,
        ;
    }
}

/// A move carries the creature one pixel on, within that tolerance, the way
/// its first corner points after the turn.
pub proof fn lemma_move_is_unit(s: LifeState, angle: int, now: int)
    ensures
        displacement(s.position, s.advanced(angle, now).position) == s.rotated(
            angle,
        ).head_dir.times(STRIDE as int),
        s.advanced(angle, now).last_position == s.position,
        STRIDE * STRIDE * (UNIT * UNIT - 2 * UNIT) <= displacement(
            s.position,
            s.advanced(angle, now).position,
        ).norm_sq() <= PIXEL * PIXEL,
{
    let r = s.rotated(angle);
    lemma_heading_is_unit(s, angle);
    let h = r.head_dir;
    let d = displacement(s.position, s.advanced(angle, now).position);
    assert(d.norm_sq() == STRIDE * STRIDE * h.norm_sq()) by (nonlinear_arith)
        requires
            d.x == h.x * STRIDE,
            d.y == h.y * STRIDE,
            d.norm_sq() == d.x * d.x + d.y * d.y,
            h.norm_sq() == h.x * h.x + h.y * h.y,
    ;
    assert(STRIDE * STRIDE * (UNIT * UNIT - 2 * UNIT) <= STRIDE * STRIDE * h.norm_sq() <= PIXEL
        * PIXEL) by (nonlinear_arith)
        requires
            UNIT * UNIT - 2 * UNIT <= h.norm_sq() <= UNIT * UNIT,
            STRIDE == 1000,
            UNIT == 1_000_000_000,
            PIXEL == 1_000_000_000_000,
    ;
}

/// A creature that fits the window where it stands is drawn inside the
/// window after a step: either it still fits, or it goes back to where it
/// stood.
pub proof fn lemma_step_stays_in_window(s: LifeState)
    requires
        s.fits_at(s.position),
    ensures
        s.stepped().settled().fits_at(s.stepped().settled().position),
        forall|i: int|
            0 <= i < s.shape.len() ==> in_box(
                #[trigger] s.stepped().settled().placed_at(s.stepped().settled().position)[i],
            ),
{
    let t = s.stepped();
    let r = t.settled();
    assert(t.shape == s.shape);
    if !t.fits_at(t.position) {
        assert(r.position == s.position);
    }
    assert forall|i: int| 0 <= i < s.shape.len() implies in_box(
        #[trigger] r.placed_at(r.position)[i],
    ) by {
        assert(in_box(r.shape[i].offset().plus(r.position)));
    }
}

/// Whenever the creature fits the window where it stands or where it stood
/// before, it is drawn inside the window.
pub proof fn lemma_settled_fits(s: LifeState)
    requires
        s.fits_at(s.position) || s.fits_at(s.last_position),
    ensures
        s.settled().fits_at(s.settled().position),
{
}

/// A second look at the window changes nothing: the creature stays where the
/// first look left it, and the same corners are drawn.
pub proof fn lemma_settled_twice(s: LifeState)
    ensures
        s.settled().settled() == s.settled(),
        s.settled().settled().placed_at(s.settled().settled().position) == s.settled().placed_at(
            s.settled().position,
        ),
{
}

/// After a move at time `then`, none is due before `NANOS_PER_UPDATE` have
/// gone by.
pub proof fn lemma_no_move_too_soon(s: LifeState, angle: int, then: int, now: int)
    requires
        now < then + NANOS_PER_UPDATE,
    ensures
        !s.advanced(angle, then).due(now),
{
}

/// A move is due exactly when at least `NANOS_PER_UPDATE` lie between the
/// last one and `now`.
pub proof fn lemma_due_when(s: LifeState, now: int)
    ensures
        s.due(now) <==> now - s.last_update >= NANOS_PER_UPDATE,
{
}

} // verus!
