//! The creature: its shape, where it stands, where it heads, and the rules
//! by which it turns, steps and is kept inside the window.
//!
//! Positions are counted in steps, `PIXEL` of them to a pixel. A corner of
//! the shape is held by its distance from the position and its angle, so
//! that a turn changes the angle and nothing else. The distance is counted
//! in grains of `GRAIN` steps: the shortest corner that is not the position
//! itself is a million steps long, and what rounding to whole steps costs it
//! stays below a hundred-thousandth of its length.

use vstd::prelude::*;
use crate::chance::random_between;
use crate::fixed::{lemma_square_monotone, Point, Vector, REACH, UNIT};
use crate::turn::{
    cosine_of, is_unit_pair, lemma_folded_range, lemma_turned_no_longer, lemma_unit_pair, sine_of,
    turned_by, wrapped, wrapped_sum, Rotation, FULL_TURN, HALF_TURN, QUARTER_TURN,
};

verus! {

/// Steps in one pixel.
pub const PIXEL: i64 = 1_000_000_000_000;

/// Steps in one grain, the unit in which a corner's distance is counted: a
/// millionth of a pixel.
pub const GRAIN: i64 = 1_000_000;

/// Farthest that a corner may lie from the position, in grains: `REACH`
/// steps.
pub const MAX_RADIUS: i64 = 1_000_000_000_000;

/// Steps of position to one step of heading: a heading of length `UNIT`
/// carries the creature one pixel.
pub const STRIDE: i64 = 1000;

/// Width of the window, in steps.
pub const SCREEN_WIDTH: i64 = 800 * PIXEL;

/// Height of the window, in steps.
pub const SCREEN_HEIGHT: i64 = 600 * PIXEL;

/// How often per second the creature moves.
pub const UPDATES_PER_SECOND: u64 = 64;

/// Whole milliseconds between two moves.
pub const MILLIS_PER_UPDATE: u64 = 1000 / UPDATES_PER_SECOND;

/// The same interval in nanoseconds, the unit in which time is told.
pub const NANOS_PER_UPDATE: u64 = MILLIS_PER_UPDATE * 1_000_000;

/// The creature turns by less than this angle, either way, before a step.
pub const MAX_TURN: i64 = 300_000_000;

/// Distance of the two base corners of the starting triangle, in grains:
/// the root of 175 pixels squared, for a corner ten pixels aside and twenty
/// times half the root of three quarters below.
pub const BASE_RADIUS: i64 = 13_228_757;

/// Distance of its third corner, in grains: twenty times half the root of
/// three quarters, in pixels.
pub const TIP_RADIUS: i64 = 8_660_254;

/// The angle by which the base corners lie below the horizontal.
pub const BASE_ANGLE: i64 = 713_724_379;

/// Whether the point lies in the window, its border included.
pub open spec fn in_box(v: Vector) -> bool {
    0 <= v.x <= SCREEN_WIDTH && 0 <= v.y <= SCREEN_HEIGHT
}

/// A corner of the shape, held by its distance from the position, in
/// grains, and by its angle.
#[derive(Clone, Copy, Debug, PartialEq, Eq, Structural)]
pub struct Corner {
    pub radius: i64,
    pub angle: i64,
}

impl Corner {
    /// The distance is not negative and at most `MAX_RADIUS`; the angle lies
    /// in the turn around zero.
    pub open spec fn wf(self) -> bool {
        &&& 0 <= self.radius <= MAX_RADIUS
        &&& -HALF_TURN <= self.angle < FULL_TURN - HALF_TURN
    }

    /// The distance from the position, in steps.
    pub open spec fn reach(self) -> int {
        self.radius * GRAIN
    }

    /// The direction of the corner: cosine and sine of its angle.
    pub open spec fn heading(self) -> Vector {
        Vector { x: cosine_of(self.angle as int), y: sine_of(self.angle as int) }
    }

    /// Where the corner lies relative to the position, in steps: the vector
    /// of its length along the horizontal, turned by its angle.
    pub open spec fn offset(self) -> Vector {
        turned_by(self.angle as int, Vector { x: self.reach(), y: 0 })
    }

    /// The corner turned about the position by `angle`: as far away as
    /// before, at the wrapped sum of the angles.
    pub open spec fn turned(self, angle: int) -> Corner {
        Corner { radius: self.radius, angle: wrapped(self.angle + angle) as i64 }
    }

    /// A turned corner is well formed if the corner was.
    pub proof fn lemma_turned_wf(self, angle: int)
        requires
            self.wf(),
        ensures
            self.turned(angle).wf(),
            self.turned(angle).angle == wrapped(self.angle + angle),
    {
        lemma_folded_range(self.angle + angle);
    }

    /// A corner lies no farther than `REACH` in either coordinate, and its
    /// offset is no longer than its distance.
    pub proof fn lemma_offset_within(self)
        requires
            self.wf(),
        ensures
            0 <= self.reach() <= REACH,
            self.offset().norm_sq() <= self.reach() * self.reach(),
            self.offset().within_reach(),
    {
        let len = self.reach();
        assert(0 <= len <= REACH) by (nonlinear_arith)
            requires
                0 <= self.radius <= MAX_RADIUS,
                len == self.radius * GRAIN,
                MAX_RADIUS == 1_000_000_000_000,
                GRAIN == 1_000_000,
                REACH == 1_000_000_000_000_000_000,
        ;
        let flat = Vector { x: len, y: 0 };
        lemma_unit_pair(self.angle as int);
        lemma_turned_no_longer(cosine_of(self.angle as int), sine_of(self.angle as int), flat);
        assert(flat.norm_sq() == len * len) by (nonlinear_arith)
            requires
                flat.norm_sq() == flat.x * flat.x + flat.y * flat.y,
                flat.x == len,
                flat.y == 0,
        ;
        lemma_square_monotone(len, REACH as int);
        self.offset().lemma_coordinates_within(REACH as int);
    }

    /// Whether the corner is well formed.
    pub fn is_wf(self) -> (wf: bool)
        ensures
            wf == self.wf(),
    {
        0 <= self.radius && self.radius <= MAX_RADIUS && -HALF_TURN <= self.angle && self.angle
            < FULL_TURN - HALF_TURN
    }

    /// The direction of the corner.
    pub fn heading_point(self) -> (h: Point)
        ensures
            h@ == self.heading(),
            is_unit_pair(h@.x, h@.y),
    {
        let rot = Rotation::from_angle(self.angle);
        Point { x: rot.cos, y: rot.sin }
    }

    /// Where the corner lies relative to the position, in steps.
    pub fn offset_point(self) -> (p: Point)
        requires
            self.wf(),
        ensures
            p@ == self.offset(),
            p@.within_reach(),
    {
        proof {
            self.lemma_offset_within();
            lemma_square_monotone(self.reach(), REACH as int);
            assert((self.reach()) * (self.reach()) == (Vector { x: self.reach(), y: 0 }).norm_sq())
                by (nonlinear_arith)
                requires
                    (Vector { x: self.reach(), y: 0 }).norm_sq() == self.reach() * self.reach() + 0
                        * 0,
            ;
        }
        let rot = Rotation::from_angle(self.angle);
        rot.apply(Point { x: self.radius * GRAIN, y: 0 })
    }

    /// The corner turned about the position by `rotation`.
    pub fn turn(self, rotation: i64) -> (c: Corner)
        requires
            self.wf(),
        ensures
            c == self.turned(rotation as int),
            c.wf(),
    {
        proof {
            self.lemma_turned_wf(rotation as int);
        }
        Corner { radius: self.radius, angle: wrapped_sum(self.angle, rotation) }
    }
}

/// The triangle that the creature starts as: two corners ten pixels to
/// either side of the position and below it, the third above it.
pub open spec fn triangle() -> Seq<Corner> {
    seq![
        Corner { radius: BASE_RADIUS, angle: (BASE_ANGLE - HALF_TURN) as i64 },
        Corner { radius: BASE_RADIUS, angle: (-BASE_ANGLE) as i64 },
        Corner { radius: TIP_RADIUS, angle: QUARTER_TURN },
    ]
}

/// The creature as a mathematical value.
pub struct LifeState {
    /// The corners, relative to the position.
    pub shape: Seq<Corner>,
    /// Where the creature stands.
    pub position: Vector,
    /// Where it stood before its last step.
    pub last_position: Vector,
    /// The direction of its next step.
    pub head_dir: Vector,
    /// The angle of its last turn.
    pub rotation: int,
    /// The time of its last move.
    pub last_update: int,
}

impl LifeState {
    /// Three well-formed corners; a heading of length `UNIT`, as a unit
    /// pair is; both positions within `REACH`.
    pub open spec fn wf(self) -> bool {
        &&& self.shape.len() == 3
        &&& forall|i: int| 0 <= i < 3 ==> (#[trigger] self.shape[i]).wf()
        &&& is_unit_pair(self.head_dir.x, self.head_dir.y)
        &&& self.position.within_reach()
        &&& self.last_position.within_reach()
    }

    /// The corners as they lie when the creature stands at `at`.
    pub open spec fn placed_at(self, at: Vector) -> Seq<Vector> {
        Seq::new(self.shape.len(), |i: int| self.shape[i].offset().plus(at))
    }

    /// Whether every corner lies in the window when the creature stands at
    /// `at`.
    pub open spec fn fits_at(self, at: Vector) -> bool {
        forall|i: int|
            0 <= i < self.shape.len() ==> in_box((#[trigger] self.shape[i]).offset().plus(at))
    }

    /// Whether a step leaves the position within `REACH`.
    pub open spec fn has_room(self) -> bool {
        &&& PIXEL - REACH <= self.position.x <= REACH - PIXEL
        &&& PIXEL - REACH <= self.position.y <= REACH - PIXEL
    }

    /// The creature turned by `angle`: every corner turned about the
    /// position, and the heading set to the direction of the first corner.
    pub open spec fn rotated(self, angle: int) -> LifeState {
        LifeState {
            shape: Seq::new(self.shape.len(), |i: int| self.shape[i].turned(angle)),
            head_dir: self.shape[0].turned(angle).heading(),
            ..self
        }
    }

    /// The creature one step on: the position moved by the heading, a
    /// pixel for a heading of length `UNIT`, and the position it left
    /// remembered.
    pub open spec fn stepped(self) -> LifeState {
        LifeState {
            position: self.position.plus(self.head_dir.times(STRIDE as int)),
            last_position: self.position,
            ..self
        }
    }

    /// The creature after one move at time `now`: turned by `angle`, then
    /// one step on.
    pub open spec fn advanced(self, angle: int, now: int) -> LifeState {
        LifeState { rotation: angle, last_update: now, ..self.rotated(angle).stepped() }
    }

    /// The time from the last move to `now`; none if `now` is earlier.
    pub open spec fn elapsed(self, now: int) -> int {
        if now >= self.last_update {
            now - self.last_update
        } else {
            0
        }
    }

    /// Whether a move is due at `now`.
    pub open spec fn due(self, now: int) -> bool {
        self.elapsed(now) >= NANOS_PER_UPDATE
    }

    /// The creature after a look at the window: where it stands if it fits
    /// there, else back where it stood before its last step.
    pub open spec fn settled(self) -> LifeState {
        if self.fits_at(self.position) {
            self
        } else {
            LifeState { position: self.last_position, ..self }
        }
    }
}

/// The creature.
#[derive(Clone, Debug, PartialEq, Eq)]
pub struct Life {
    /// The corners, relative to the position.
    pub shape: Vec<Corner>,
    /// Where the creature stands, in steps.
    pub position: Point,
    /// Where it stood before its last step.
    pub last_position: Point,
    /// The direction of its next step, of length `UNIT`.
    pub head_dir: Point,
    /// The angle of its last turn.
    pub rotation: i64,
    /// The time of its last move, in nanoseconds.
    pub last_update: u64,
}

impl View for Life {
    type V = LifeState;

    open spec fn view(&self) -> LifeState {
        LifeState {
            shape: self.shape@,
            position: self.position@,
            last_position: self.last_position@,
            head_dir: self.head_dir@,
            rotation: self.rotation as int,
            last_update: self.last_update as int,
        }
    }
}

impl Life {
    /// The creature at the start: the triangle in the middle of the window,
    /// heading the way of its first corner, last moved at `now`.
    pub fn new(now: u64) -> (life: Life)
        ensures
            life@.wf(),
            life@.has_room(),
            life@ == (LifeState {
                shape: triangle(),
                position: Vector { x: SCREEN_WIDTH / 2, y: SCREEN_HEIGHT / 2 },
                last_position: Vector { x: SCREEN_WIDTH / 2, y: SCREEN_HEIGHT / 2 },
                head_dir: triangle()[0].heading(),
                rotation: 0,
                last_update: now as int,
            }),
    {
        let first = Corner { radius: BASE_RADIUS, angle: BASE_ANGLE - HALF_TURN };
        let mut init_points: Vec<Corner> = Vec::new();
        init_points.push(first);
        init_points.push(Corner { radius: BASE_RADIUS, angle: -BASE_ANGLE });
        init_points.push(Corner { radius: TIP_RADIUS, angle: QUARTER_TURN });
        let position = Point { x: SCREEN_WIDTH / 2, y: SCREEN_HEIGHT / 2 };
        let life = Life {
            shape: init_points,
            position,
            last_position: position,
            head_dir: first.heading_point(),
            rotation: 0,
            last_update: now,
        };
        proof {
            assert(life@.shape =~= triangle());
        }
        life
    }

    /// Whether the creature is well formed.
    pub fn is_wf(&self) -> (wf: bool)
        ensures
            wf == self@.wf(),
    {
        if self.shape.len() != 3 {
            return false;
        }
        let mut i: usize = 0;
        while i < 3
            invariant
                i <= 3 == self.shape@.len(),
                forall|j: int| 0 <= j < i ==> (#[trigger] self@.shape[j]).wf(),
            decreases 3 - i,
        {
            if !self.shape[i].is_wf() {
                assert(!self@.shape[i as int].wf());
                return false;
            }
            i += 1;
        }
        let h = self.head_dir;
        if h.x < -UNIT || h.x > UNIT || h.y < -UNIT || h.y > UNIT {
            return false;
        }
        let x: i128 = h.x as i128;
        let y: i128 = h.y as i128;
        let unit: i128 = UNIT as i128;
        assert(0 <= x * x <= unit * unit && 0 <= y * y <= unit * unit && unit * unit
            == 1_000_000_000_000_000_000) by (nonlinear_arith)
            requires
                -unit <= x <= unit,
                -unit <= y <= unit,
                unit == 1_000_000_000,
        ;
        let len_sq: i128 = x * x + y * y;
        unit * unit - 2 * unit <= len_sq && len_sq <= unit * unit && self.position.within_reach()
            && self.last_position.within_reach()
    }

    /// Whether a step leaves the position within `REACH`.
    pub fn has_room(&self) -> (room: bool)
        ensures
            room == self@.has_room(),
    {
        PIXEL - REACH <= self.position.x && self.position.x <= REACH - PIXEL && PIXEL - REACH
            <= self.position.y && self.position.y <= REACH - PIXEL
    }

    /// Turns the creature by `rotation`, any angle in steps of a radian:
    /// every corner is turned about the position, and the heading becomes
    /// the direction of the first corner.
    pub fn update_rotation(&mut self, rotation: i64)
        requires
            old(self)@.wf(),
        ensures
            final(self)@ == old(self)@.rotated(rotation as int),
            final(self)@.wf(),
    {
        let ghost before = self@;
        let mut i: usize = 0;
        while i < self.shape.len()
            invariant
                before.wf(),
                before == old(self)@,
                i <= self.shape@.len() == 3,
                self.position == old(self).position,
                self.last_position == old(self).last_position,
                self.head_dir == old(self).head_dir,
                self.rotation == old(self).rotation,
                self.last_update == old(self).last_update,
                forall|j: int|
                    0 <= j < i ==> #[trigger] self.shape@[j] == before.shape[j].turned(
                        rotation as int,
                    ),
                forall|j: int| i <= j < 3 ==> #[trigger] self.shape@[j] == before.shape[j],
                forall|j: int| 0 <= j < 3 ==> (#[trigger] self.shape@[j]).wf(),
            decreases 3 - i,
        {
            let corner = self.shape[i];
            let turned = corner.turn(rotation);
            self.shape.set(i, turned);
            i += 1;
        }
        self.head_dir = self.shape[0].heading_point();
        proof {
            assert(self@.shape =~= before.rotated(rotation as int).shape);
        }
    }

    /// Takes one step: the position moves by the heading, a pixel for a
    /// heading of length `UNIT`, and the position left behind is remembered.
    pub fn update_forward(&mut self)
        requires
            old(self)@.wf(),
            old(self)@.has_room(),
        ensures
            final(self)@ == old(self)@.stepped(),
            final(self)@.wf(),
    {
        self.last_position = self.position;
        self.position.x += STRIDE * self.head_dir.x;
        self.position.y += STRIDE * self.head_dir.y;
    }

    /// Makes one move at time `now`: the creature turns by `rotation`, takes
    /// one step, and remembers the angle and the time.
    pub fn advance(&mut self, rotation: i64, now: u64)
        requires
            old(self)@.wf(),
            old(self)@.has_room(),
        ensures
            final(self)@ == old(self)@.advanced(rotation as int, now as int),
            final(self)@.wf(),
    {
        self.rotation = rotation;
        self.update_rotation(rotation);
        self.update_forward();
        self.last_update = now;
    }

    /// Whether a move is due at `now`: whether `NANOS_PER_UPDATE` have gone
    /// by since the last one.
    pub fn due(&self, now: u64) -> (due: bool)
        ensures
            due == self@.due(now as int),
    {
        now >= self.last_update && now - self.last_update >= NANOS_PER_UPDATE
    }

    /// The tick of the clock, with `now` in nanoseconds from whatever moment
    /// the caller counts from. Where a move is due at `now`, the creature
    /// makes one, by an angle drawn at random from `-MAX_TURN` up to but not
    /// including `MAX_TURN`; that angle is then found in `rotation`. Where
    /// none is due, nothing changes. Only a move that is due needs room.
    pub fn update(&mut self, now: u64)
        requires
            old(self)@.wf(),
            old(self)@.due(now as int) ==> old(self)@.has_room(),
        ensures
            !old(self)@.due(now as int) ==> final(self)@ == old(self)@,
            old(self)@.due(now as int) ==> -MAX_TURN <= final(self)@.rotation < MAX_TURN
                && final(self)@ == old(self)@.advanced(final(self)@.rotation, now as int),
            final(self)@.wf(),
    {
        if self.due(now) {
            let rotation: i64 = random_between(-MAX_TURN, MAX_TURN);
            self.advance(rotation, now);
        }
    }

    /// Whether every corner lies in the window when the creature stands at
    /// `at`.
    pub fn fits_at(&self, at: Point) -> (fits: bool)
        requires
            self@.wf(),
            at@.within_reach(),
        ensures
            fits == self@.fits_at(at@),
    {
        let mut i: usize = 0;
        while i < self.shape.len()
            invariant
                self@.wf(),
                at@.within_reach(),
                i <= self.shape@.len() == 3,
                forall|j: int|
                    0 <= j < i ==> in_box((#[trigger] self@.shape[j]).offset().plus(at@)),
            decreases 3 - i,
        {
            assert(self@.shape[i as int].wf());
            let off = self.shape[i].offset_point();
            let x: i64 = off.x + at.x;
            let y: i64 = off.y + at.y;
            if x < 0 || x > SCREEN_WIDTH || y < 0 || y > SCREEN_HEIGHT {
                assert(!in_box(self@.shape[i as int].offset().plus(at@)));
                return false;
            }
            i += 1;
        }
        true
    }

    /// The corners as they lie when the creature stands at `at`.
    pub fn placed_at(&self, at: Point) -> (placed: Vec<Point>)
        requires
            self@.wf(),
            at@.within_reach(),
        ensures
            placed@.len() == 3,
            forall|i: int| 0 <= i < 3 ==> (#[trigger] placed@[i])@ == self@.placed_at(at@)[i],
    {
        let mut placed: Vec<Point> = Vec::new();
        let mut i: usize = 0;
        while i < self.shape.len()
            invariant
                self@.wf(),
                at@.within_reach(),
                i <= self.shape@.len() == 3,
                placed@.len() == i,
                forall|j: int|
                    0 <= j < i ==> (#[trigger] placed@[j])@ == self@.shape[j].offset().plus(at@),
            decreases 3 - i,
        {
            assert(self@.shape[i as int].wf());
            let off = self.shape[i].offset_point();
            placed.push(Point { x: off.x + at.x, y: off.y + at.y });
            i += 1;
        }
        placed
    }

    /// Looks at the window and hands out the corners to draw. Where a corner
    /// would lie outside, the creature first goes back to where it stood
    /// before its last step, and the corners are those it has there.
    pub fn add_position(&mut self) -> (corners: Vec<Point>)
        requires
            old(self)@.wf(),
        ensures
            final(self)@ == old(self)@.settled(),
            final(self)@.wf(),
            corners@.len() == 3,
            forall|i: int|
                0 <= i < 3 ==> (#[trigger] corners@[i])@ == final(self)@.placed_at(
                    final(self)@.position,
                )[i],
    {
        if !self.fits_at(self.position) {
            self.position = self.last_position;
        }
        self.placed_at(self.position)
    }
}

} // verus!
