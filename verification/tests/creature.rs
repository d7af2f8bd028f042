use random_life::fixed::{Point, REACH, UNIT};
use random_life::life::{
    Corner, Life, BASE_ANGLE, BASE_RADIUS, GRAIN, MAX_RADIUS, MAX_TURN, MILLIS_PER_UPDATE,
    NANOS_PER_UPDATE, PIXEL, SCREEN_HEIGHT, SCREEN_WIDTH, STRIDE, TIP_RADIUS, UPDATES_PER_SECOND,
};
use random_life::turn::{EIGHTH_TURN, FULL_TURN, HALF_TURN, QUARTER_TURN};

fn px(x: i64, y: i64) -> Point {
    Point { x: x * PIXEL, y: y * PIXEL }
}

fn norm_sq(p: Point) -> i128 {
    let x: i128 = p.x as i128;
    let y: i128 = p.y as i128;
    x * x + y * y
}

fn in_window(p: &Point) -> bool {
    0 <= p.x && p.x <= SCREEN_WIDTH && 0 <= p.y && p.y <= SCREEN_HEIGHT
}

/// An equilateral triangle with its corners twenty pixels from the middle.
fn wide_triangle() -> Vec<Corner> {
    vec![
        Corner { radius: 20_000_000, angle: QUARTER_TURN },
        Corner { radius: 20_000_000, angle: -2_617_993_878 },
        Corner { radius: 20_000_000, angle: -523_598_775 },
    ]
}

fn offsets(life: &Life) -> Vec<Point> {
    life.shape.iter().map(|c| c.offset_point()).collect()
}

fn moved(shape: &[Point], by: Point) -> Vec<Point> {
    shape.iter().map(|p| Point { x: p.x + by.x, y: p.y + by.y }).collect()
}

fn is_unit(h: Point) -> bool {
    let unit: i128 = UNIT as i128;
    let len_sq = norm_sq(h);
    unit * unit - 2 * unit <= len_sq && len_sq <= unit * unit
}

#[test]
fn the_clock_ticks_sixty_four_times_a_second() {
    assert_eq!(UPDATES_PER_SECOND, 64);
    assert_eq!(MILLIS_PER_UPDATE, 15);
    assert_eq!(NANOS_PER_UPDATE, 15_000_000);
}

#[test]
fn the_window_is_eight_hundred_by_six_hundred() {
    assert_eq!(PIXEL, 1_000_000_000_000);
    assert_eq!(SCREEN_WIDTH, 800 * PIXEL);
    assert_eq!(SCREEN_HEIGHT, 600 * PIXEL);
    assert_eq!(MAX_TURN, 300_000_000);
    assert_eq!(STRIDE * UNIT, PIXEL);
    assert_eq!(MAX_RADIUS * GRAIN, REACH);
}

#[test]
fn new_is_a_triangle_in_the_middle() {
    let life = Life::new(77);
    assert_eq!(
        life.shape,
        vec![
            Corner { radius: 13_228_757, angle: -2_427_868_275 },
            Corner { radius: 13_228_757, angle: -713_724_379 },
            Corner { radius: 8_660_254, angle: 1_570_796_327 },
        ]
    );
    assert_eq!(BASE_RADIUS, ((175.0f64).sqrt() * 1e6).round() as i64);
    assert_eq!(TIP_RADIUS, ((0.75f64).sqrt() / 2.0 * 20.0 * 1e6).round() as i64);
    assert_eq!(BASE_ANGLE, ((0.75f64).sqrt().atan() * 1e9).round() as i64);
    assert_eq!(life.position, px(400, 300));
    assert_eq!(life.last_position, px(400, 300));
    assert_eq!(life.rotation, 0);
    assert_eq!(life.last_update, 77);
    assert!(life.is_wf());
    assert!(life.has_room());
}

#[test]
fn new_heads_the_way_of_its_first_corner() {
    let life = Life::new(0);
    assert_eq!(life.head_dir, Point { x: -755_928_946, y: -654_653_670 });
    assert_eq!(life.head_dir, life.shape[0].heading_point());
    assert!(is_unit(life.head_dir));
    // A step before the first turn carries it one pixel that way.
    let mut life = life;
    life.update_forward();
    assert_eq!(life.position, Point { x: 399_244_071_054_000, y: 299_345_346_330_000 });
    assert_eq!(life.last_position, px(400, 300));
}

#[test]
fn new_lies_where_the_corners_of_the_triangle_lie() {
    let life = Life::new(0);
    assert_eq!(
        offsets(&life),
        vec![
            Point { x: -10_000_000_335_900, y: -8_660_254_319_588 },
            Point { x: 10_000_000_335_900, y: -8_660_254_319_588 },
            Point { x: 0, y: 8_660_254_000_000 },
        ]
    );
    // Within a millionth of a pixel of ten aside and twenty times half the
    // root of three quarters up or down.
    let half_height: f64 = (0.75f64).sqrt() / 2.0 * 20.0;
    let wanted = vec![(-10.0, -half_height), (10.0, -half_height), (0.0, half_height)];
    for (p, (x, y)) in offsets(&life).iter().zip(wanted) {
        assert!((p.x as f64 / 1e12 - x).abs() < 1e-6);
        assert!((p.y as f64 / 1e12 - y).abs() < 1e-6);
    }
}

#[test]
fn update_rotation_exact_values() {
    let mut life = Life::new(0);
    life.update_rotation(300_000_000);
    assert_eq!(
        life.shape,
        vec![
            Corner { radius: 13_228_757, angle: -2_127_868_275 },
            Corner { radius: 13_228_757, angle: -413_724_379 },
            Corner { radius: 8_660_254, angle: 1_870_796_327 },
        ]
    );
    assert_eq!(life.head_dir, Point { x: -528_703_117, y: -848_806_817 });
    assert_eq!(
        offsets(&life),
        vec![
            Point { x: -6_994_085_059_935, y: -11_228_659_122_036 },
            Point { x: 12_112_645_356_433, y: -5_318_254_799_359 },
            Point { x: -2_559_280_046_092, y: 8_273_456_650_208 },
        ]
    );
    assert_eq!(life.position, px(400, 300));
    assert_eq!(life.last_position, px(400, 300));
    assert_eq!(life.rotation, 0);
    assert_eq!(life.last_update, 0);
    assert!(life.is_wf());
}

#[test]
fn update_rotation_the_other_way() {
    let mut life = Life::new(0);
    life.update_rotation(-123_456_789);
    assert_eq!(
        life.shape,
        vec![
            Corner { radius: 13_228_757, angle: -2_551_325_064 },
            Corner { radius: 13_228_757, angle: -837_181_168 },
            Corner { radius: 8_660_254, angle: 1_447_339_538 },
        ]
    );
    assert_eq!(life.head_dir, Point { x: -830_791_772, y: -556_583_354 });
}

#[test]
fn update_rotation_takes_any_angle() {
    let mut life = Life::new(0);
    life.update_rotation(2_000_000_000);
    assert_eq!(
        life.shape,
        vec![
            Corner { radius: 13_228_757, angle: -427_868_275 },
            Corner { radius: 13_228_757, angle: 1_286_275_621 },
            Corner { radius: 8_660_254, angle: -2_712_388_980 },
        ]
    );
    assert_eq!(life.head_dir, Point { x: 909_852_337, y: -414_932_192 });
    let mut far = Life::new(0);
    far.update_rotation(i64::MIN);
    assert_eq!(far.shape[0], Corner { radius: 13_228_757, angle: -435_831_719 });
    assert_eq!(far.head_dir, Point { x: 906_519_233, y: -422_164_517 });
    assert!(far.is_wf());
    let mut near = Life::new(0);
    near.update_rotation(0);
    assert_eq!(near, Life::new(0));
}

#[test]
fn update_rotation_follows_the_rotation_matrix() {
    let mut angle: i64 = -3_000_000_000;
    while angle <= 3_000_000_000 {
        let mut life = Life::new(0);
        let before = offsets(&life);
        life.update_rotation(angle);
        let radians: f64 = angle as f64 / 1e9;
        for (was, is) in before.iter().zip(offsets(&life)) {
            let x: f64 = radians.cos() * was.x as f64 - radians.sin() * was.y as f64;
            let y: f64 = radians.sin() * was.x as f64 + radians.cos() * was.y as f64;
            // Within a ten-millionth of a pixel.
            assert!((is.x as f64 - x).abs() <= 1e5, "angle {}", angle);
            assert!((is.y as f64 - y).abs() <= 1e5, "angle {}", angle);
        }
        angle += 23_456_789;
    }
}

#[test]
fn update_rotation_keeps_every_distance() {
    let mut angle: i64 = -3_141_592_654;
    while angle < 3_141_592_654 {
        let mut life = Life::new(0);
        let before: Vec<i128> = offsets(&life).iter().map(|p| norm_sq(*p)).collect();
        let radii: Vec<i64> = life.shape.iter().map(|c| c.radius).collect();
        life.update_rotation(angle);
        assert_eq!(life.shape.iter().map(|c| c.radius).collect::<Vec<i64>>(), radii);
        for ((p, was), radius) in offsets(&life).iter().zip(before).zip(radii) {
            let held: i128 = (radius as i128) * (GRAIN as i128);
            let now = norm_sq(*p);
            assert!(now <= held * held);
            assert!(100_000 * (held * held - now) < held * held);
            assert!(100_000 * (now - was).abs() < held * held);
        }
        angle += 10_000_019;
    }
}

#[test]
fn a_short_corner_survives_every_turn() {
    // One grain is the shortest distance a corner can have.
    let mut life = Life::new(0);
    life.shape = vec![
        Corner { radius: 1, angle: 0 },
        Corner { radius: 1, angle: EIGHTH_TURN },
        Corner { radius: 2, angle: -QUARTER_TURN },
    ];
    assert_eq!(
        offsets(&life),
        vec![
            Point { x: 1_000_000, y: 0 },
            Point { x: 707_106, y: 707_106 },
            Point { x: 0, y: -2_000_000 },
        ]
    );
    life.update_rotation(6);
    assert_eq!(life.shape[0], Corner { radius: 1, angle: 6 });
    assert_eq!(offsets(&life)[0], Point { x: 999_999, y: 0 });
    assert!(is_unit(life.head_dir));
    let mut angle: i64 = -3_141_592_654;
    while angle < 3_141_592_654 {
        life.update_rotation(angle);
        assert!(is_unit(life.head_dir), "angle {}", angle);
        for (corner, p) in life.shape.iter().zip(offsets(&life)) {
            let held: i128 = (corner.radius as i128) * (GRAIN as i128);
            assert!(norm_sq(p) <= held * held);
            assert!(100_000 * (held * held - norm_sq(p)) < held * held, "angle {}", angle);
        }
        angle += 77_777_777;
    }
    assert_eq!(life.shape.iter().map(|c| c.radius).collect::<Vec<i64>>(), vec![1, 1, 2]);
}

#[test]
fn turning_there_and_back_restores_the_creature() {
    let mut angle: i64 = -20_000_000_000;
    while angle <= 20_000_000_000 {
        let start = Life::new(0);
        let mut life = start.clone();
        life.update_rotation(angle);
        life.update_rotation(-angle);
        assert_eq!(life, start, "angle {}", angle);
        angle += 1_234_567_891;
    }
    let mut short = Life::new(0);
    short.shape[0] = Corner { radius: 1, angle: 0 };
    short.head_dir = Point { x: UNIT, y: 0 };
    let start = short.clone();
    short.update_rotation(6);
    short.update_rotation(-6);
    assert_eq!(short, start);
    assert_eq!(short.head_dir, Point { x: UNIT, y: 0 });
}

#[test]
fn two_turns_are_one_turn_by_the_sum() {
    let mut twice = Life::new(0);
    twice.update_rotation(250_000_000);
    twice.update_rotation(-1_900_000_000);
    let mut once = Life::new(0);
    once.update_rotation(-1_650_000_000);
    assert_eq!(twice, once);
}

#[test]
fn update_rotation_makes_the_heading_a_unit_vector() {
    let mut angle: i64 = -3_141_592_654;
    while angle < 3_141_592_654 {
        let mut life = Life::new(0);
        life.update_rotation(angle);
        assert!(is_unit(life.head_dir), "angle {}", angle);
        assert_eq!(life.head_dir, life.shape[0].heading_point());
        angle += 10_000_019;
    }
}

#[test]
fn the_heading_turns_by_the_angle_passed() {
    let mut angle: i64 = -MAX_TURN;
    while angle < MAX_TURN {
        let mut life = Life::new(0);
        let was = life.head_dir;
        life.update_rotation(angle);
        let is = life.head_dir;
        let radians: f64 = angle as f64 / 1e9;
        let dot: f64 = (was.x as f64 * is.x as f64 + was.y as f64 * is.y as f64) / 1e18;
        let cross: f64 = (was.x as f64 * is.y as f64 - was.y as f64 * is.x as f64) / 1e18;
        assert!((dot - radians.cos()).abs() < 1e-8, "angle {}", angle);
        assert!((cross - radians.sin()).abs() < 1e-8, "angle {}", angle);
        angle += 1_000_003;
    }
}

#[test]
fn update_rotation_with_the_first_corner_on_the_position() {
    let mut life = Life::new(0);
    life.shape[0] = Corner { radius: 0, angle: 0 };
    life.update_rotation(250_000_000);
    assert_eq!(life.shape[0], Corner { radius: 0, angle: 250_000_000 });
    assert_eq!(offsets(&life)[0], Point { x: 0, y: 0 });
    // The corner still has its angle, and the heading follows it.
    assert_eq!(life.head_dir, Point { x: 968_912_421, y: 247_403_959 });
    assert!(life.is_wf());
}

#[test]
fn update_forward_moves_by_the_heading() {
    let mut life = Life::new(0);
    life.head_dir = Point { x: -528_703_117, y: -848_806_817 };
    life.update_forward();
    assert_eq!(life.position, Point { x: 399_471_296_883_000, y: 299_151_193_183_000 });
    assert_eq!(life.last_position, px(400, 300));
    life.update_forward();
    assert_eq!(life.position, Point { x: 398_942_593_766_000, y: 298_302_386_366_000 });
    assert_eq!(life.last_position, Point { x: 399_471_296_883_000, y: 299_151_193_183_000 });
    assert_eq!(life.shape, Life::new(0).shape);
    assert_eq!(life.head_dir, Point { x: -528_703_117, y: -848_806_817 });
}

#[test]
fn a_step_is_one_pixel_long() {
    let pixel_sq: i128 = (PIXEL as i128) * (PIXEL as i128);
    let mut life = Life::new(0);
    let mut angle: i64 = -MAX_TURN;
    while angle < MAX_TURN {
        let from = life.position;
        life.advance(angle, 0);
        let gone = Point { x: life.position.x - from.x, y: life.position.y - from.y };
        assert_eq!(gone, Point { x: STRIDE * life.head_dir.x, y: STRIDE * life.head_dir.y });
        assert!(norm_sq(gone) <= pixel_sq);
        // Short of a pixel by less than two parts in a thousand million of
        // the squared length.
        assert!((pixel_sq - norm_sq(gone)) * 500_000_000 <= pixel_sq);
        assert_eq!(life.last_position, from);
        life.position = px(400, 300);
        angle += 9_999_991;
    }
}

#[test]
fn step_up_then_draw_inside() {
    let mut life = Life::new(0);
    life.shape = wide_triangle();
    life.position = px(400, 300);
    life.head_dir = Point { x: 0, y: UNIT };
    life.update_forward();
    assert_eq!(life.position, px(400, 301));
    let corners = life.add_position();
    assert_eq!(
        corners,
        vec![
            Point { x: 400_000_000_000_000, y: 321_000_000_000_000 },
            Point { x: 382_679_491_940_000, y: 291_000_000_000_000 },
            Point { x: 417_320_508_080_000, y: 291_000_000_020_000 },
        ]
    );
    assert_eq!(corners, moved(&offsets(&life), px(400, 301)));
    assert!(corners.iter().all(in_window));
    assert_eq!(life.position, px(400, 301));
    assert_eq!(life.last_position, px(400, 300));
}

#[test]
fn step_up_with_the_first_triangle() {
    let mut life = Life::new(0);
    life.head_dir = Point { x: 0, y: UNIT };
    life.update_forward();
    assert_eq!(life.position, px(400, 301));
    let corners = life.add_position();
    assert_eq!(
        corners,
        vec![
            Point { x: 389_999_999_664_100, y: 292_339_745_680_412 },
            Point { x: 410_000_000_335_900, y: 292_339_745_680_412 },
            Point { x: 400_000_000_000_000, y: 309_660_254_000_000 },
        ]
    );
}

#[test]
fn step_out_then_draw_goes_back() {
    let mut life = Life::new(0);
    life.position = Point { x: PIXEL / 2, y: 300 * PIXEL };
    life.last_position = px(3, 300);
    life.head_dir = Point { x: -UNIT, y: 0 };
    life.update_forward();
    assert_eq!(life.position, Point { x: -PIXEL / 2, y: 300 * PIXEL });
    assert_eq!(life.last_position, Point { x: PIXEL / 2, y: 300 * PIXEL });
    let corners = life.add_position();
    assert_eq!(life.position, Point { x: PIXEL / 2, y: 300 * PIXEL });
    assert_eq!(life.last_position, Point { x: PIXEL / 2, y: 300 * PIXEL });
    assert_eq!(corners, moved(&offsets(&life), Point { x: PIXEL / 2, y: 300 * PIXEL }));
    assert_eq!(
        corners,
        vec![
            Point { x: -9_500_000_335_900, y: 291_339_745_680_412 },
            Point { x: 10_500_000_335_900, y: 291_339_745_680_412 },
            Point { x: 500_000_000_000, y: 308_660_254_000_000 },
        ]
    );
}

#[test]
fn one_corner_outside_is_enough_to_go_back() {
    // Only the third corner, the one upward of the position, leaves the window.
    let mut life = Life::new(0);
    life.last_position = px(400, 591);
    life.position = Point { x: 400 * PIXEL, y: 591_339_746_000_001 };
    let corners = life.add_position();
    assert_eq!(life.position, px(400, 591));
    assert_eq!(corners[2], Point { x: 400 * PIXEL, y: 599_660_254_000_000 });
    // One step nearer, the corner lies on the border, which is inside.
    let mut life = Life::new(0);
    life.last_position = px(400, 591);
    life.position = Point { x: 400 * PIXEL, y: 591_339_746_000_000 };
    let corners = life.add_position();
    assert_eq!(life.position, Point { x: 400 * PIXEL, y: 591_339_746_000_000 });
    assert_eq!(corners[2], Point { x: 400 * PIXEL, y: 600 * PIXEL });
}

#[test]
fn the_border_of_the_window_is_inside() {
    let mut life = Life::new(0);
    life.shape = vec![
        Corner { radius: 0, angle: 0 },
        Corner { radius: 800_000_000, angle: 0 },
        Corner { radius: 600_000_000, angle: QUARTER_TURN },
    ];
    life.position = Point { x: 0, y: 0 };
    life.last_position = px(-5, -5);
    assert!(life.fits_at(Point { x: 0, y: 0 }));
    assert!(!life.fits_at(Point { x: 1, y: 0 }));
    assert!(!life.fits_at(Point { x: 0, y: 1 }));
    assert!(!life.fits_at(Point { x: 0, y: -1 }));
    let corners = life.add_position();
    assert_eq!(corners, vec![Point { x: 0, y: 0 }, px(800, 0), px(0, 600)]);
    assert_eq!(life.position, Point { x: 0, y: 0 });
}

#[test]
fn placed_at_adds_the_position_to_every_corner() {
    let life = Life::new(0);
    assert_eq!(life.placed_at(Point { x: 0, y: 0 }), offsets(&life));
    assert_eq!(life.placed_at(px(-400, 1000)), moved(&offsets(&life), px(-400, 1000)));
    assert_eq!(
        life.placed_at(Point { x: REACH, y: -REACH })[0],
        Point { x: REACH - 10_000_000_335_900, y: -REACH - 8_660_254_319_588 }
    );
}

#[test]
fn the_farthest_corner_is_still_placed() {
    let mut life = Life::new(0);
    life.shape[1] = Corner { radius: MAX_RADIUS, angle: 0 };
    life.shape[2] = Corner { radius: MAX_RADIUS, angle: -HALF_TURN };
    assert!(life.is_wf());
    let placed = life.placed_at(Point { x: REACH, y: -REACH });
    assert_eq!(placed[1], Point { x: 2 * REACH, y: -REACH });
    assert_eq!(placed[2], Point { x: 0, y: -REACH });
}

#[test]
fn drawing_twice_gives_the_same_corners() {
    // Inside: nothing to undo.
    let mut life = Life::new(0);
    let first = life.add_position();
    let after_first = life.clone();
    let second = life.add_position();
    assert_eq!(first, second);
    assert_eq!(life, after_first);
    // Outside, with a way back inside.
    let mut life = Life::new(0);
    life.position = px(795, 300);
    life.last_position = px(789, 300);
    let first = life.add_position();
    let after_first = life.clone();
    let second = life.add_position();
    assert_eq!(first, second);
    assert_eq!(life, after_first);
    assert_eq!(life.position, px(789, 300));
    // Outside, and the way back is outside too.
    let mut life = Life::new(0);
    life.position = px(-50, 300);
    life.last_position = px(-49, 300);
    let first = life.add_position();
    let after_first = life.clone();
    let second = life.add_position();
    assert_eq!(first, second);
    assert_eq!(life, after_first);
    assert_eq!(life.position, px(-49, 300));
    assert_eq!(first, moved(&offsets(&life), px(-49, 300)));
}

#[test]
fn a_step_never_shows_outside_the_window() {
    let headings = vec![
        Point { x: UNIT, y: 0 },
        Point { x: -UNIT, y: 0 },
        Point { x: 0, y: UNIT },
        Point { x: 0, y: -UNIT },
        Point { x: 600_000_000, y: 800_000_000 },
    ];
    for heading in headings {
        let mut life = Life::new(0);
        life.head_dir = heading;
        let mut steps: u32 = 0;
        while steps < 1000 {
            life.update_forward();
            let corners = life.add_position();
            assert!(corners.iter().all(in_window), "{:?} after {} steps", heading, steps);
            steps += 1;
        }
        // It ran into the border and stands there.
        assert_eq!(life.position, life.last_position);
    }
}

#[test]
fn a_turn_at_the_border_can_show_a_corner_outside() {
    // The creature stands a pixel from touching the right border.
    let mut life = Life::new(0);
    life.position = px(789, 300);
    life.last_position = px(789, 300);
    assert!(life.fits_at(life.position));
    // The turn swings its second corner over the border, and the step away
    // from the border is too short to bring it back in.
    life.advance(300_000_000, 0);
    assert_eq!(life.position, Point { x: 788_471_296_883_000, y: 299_151_193_183_000 });
    assert!(!life.fits_at(life.position));
    assert!(!life.fits_at(life.last_position));
    let corners = life.add_position();
    assert_eq!(life.position, px(789, 300));
    assert_eq!(corners[1], Point { x: 801_112_645_356_433, y: 294_681_745_200_641 });
    assert!(!in_window(&corners[1]));
}

#[test]
fn update_before_the_interval_changes_nothing() {
    let mut life = Life::new(1_000);
    let before = life.clone();
    life.update(1_000);
    assert_eq!(life, before);
    life.update(1_000 + 14_999_999);
    assert_eq!(life, before);
    assert!(!life.due(1_000 + 14_999_999));
    // Time told earlier than the last move counts as no time gone by.
    life.update(999);
    assert_eq!(life, before);
    life.update(0);
    assert_eq!(life, before);
    assert!(!life.due(0));
}

#[test]
fn update_before_the_interval_needs_no_room() {
    let mut life = Life::new(1_000);
    life.position = Point { x: REACH, y: -REACH };
    assert!(life.is_wf());
    assert!(!life.has_room());
    let before = life.clone();
    life.update(1_000 + 14_999_999);
    assert_eq!(life, before);
}

#[test]
fn update_at_the_interval_makes_one_move() {
    let mut life = Life::new(1_000);
    let before = life.clone();
    assert!(life.due(15_001_000));
    life.update(15_001_000);
    assert_eq!(life.last_update, 15_001_000);
    assert!(-MAX_TURN <= life.rotation && life.rotation < MAX_TURN);
    let mut by_hand = before.clone();
    by_hand.update_rotation(life.rotation);
    by_hand.update_forward();
    by_hand.rotation = life.rotation;
    by_hand.last_update = 15_001_000;
    assert_eq!(life, by_hand);
    let mut advanced = before.clone();
    advanced.advance(life.rotation, 15_001_000);
    assert_eq!(life, advanced);
    assert_eq!(life.last_position, before.position);
    assert!(is_unit(life.head_dir));
    // The next move is due a whole interval later, not before.
    let moved_once = life.clone();
    life.update(15_001_000 + 14_999_999);
    assert_eq!(life, moved_once);
    life.update(15_001_000 + 15_000_000);
    assert_ne!(life, moved_once);
    assert_eq!(life.last_update, 30_001_000);
    assert_eq!(life.last_position, moved_once.position);
}

#[test]
fn update_long_after_the_interval_makes_one_move_only() {
    let mut life = Life::new(0);
    let before = life.clone();
    life.update(u64::MAX);
    let mut advanced = before.clone();
    advanced.advance(life.rotation, u64::MAX);
    assert_eq!(life, advanced);
    assert_eq!(life.last_position, before.position);
}

#[test]
fn advance_exact_values() {
    let mut life = Life::new(5);
    life.advance(300_000_000, 42);
    assert_eq!(life.rotation, 300_000_000);
    assert_eq!(life.last_update, 42);
    assert_eq!(life.head_dir, Point { x: -528_703_117, y: -848_806_817 });
    assert_eq!(life.position, Point { x: 399_471_296_883_000, y: 299_151_193_183_000 });
    assert_eq!(life.last_position, px(400, 300));
    assert_eq!(life.shape[0], Corner { radius: 13_228_757, angle: -2_127_868_275 });
}

#[test]
fn update_draws_its_angles_at_random() {
    let mut life = Life::new(0);
    let mut angles: Vec<i64> = Vec::new();
    let mut now: u64 = 0;
    while angles.len() < 200 {
        now += NANOS_PER_UPDATE;
        life.update(now);
        assert!(-MAX_TURN <= life.rotation && life.rotation < MAX_TURN);
        angles.push(life.rotation);
        life.add_position();
    }
    let least: i64 = *angles.iter().min().unwrap();
    let most: i64 = *angles.iter().max().unwrap();
    // Two hundred draws from six hundred million angles are spread out:
    // neither all at one end of the range nor all alike.
    assert!(least < -MAX_TURN / 2);
    assert!(most > MAX_TURN / 2);
    assert!(angles.iter().any(|a| *a != angles[0]));
}

#[test]
fn a_long_walk_stays_at_the_window_and_in_shape() {
    let mut life = Life::new(0);
    let radii: Vec<i64> = life.shape.iter().map(|c| c.radius).collect();
    let mut now: u64 = 0;
    let mut ticks: u32 = 0;
    while ticks < 20_000 {
        now += NANOS_PER_UPDATE;
        assert!(life.is_wf() && life.has_room());
        life.update(now);
        assert!(is_unit(life.head_dir));
        let here = life.fits_at(life.position);
        let there = life.fits_at(life.last_position);
        let stepped = life.clone();
        let corners = life.add_position();
        assert_eq!(corners.iter().all(in_window), here || there, "tick {}", ticks);
        assert_eq!(corners, moved(&offsets(&life), life.position));
        assert_eq!(life.position, if here { stepped.position } else { stepped.last_position });
        assert!(-15 * PIXEL <= life.position.x && life.position.x <= SCREEN_WIDTH + 15 * PIXEL);
        assert!(-15 * PIXEL <= life.position.y && life.position.y <= SCREEN_HEIGHT + 15 * PIXEL);
        ticks += 1;
    }
    // However long it walks, no corner comes nearer or goes farther, and
    // the angles between the corners stay what they were.
    assert_eq!(life.shape.iter().map(|c| c.radius).collect::<Vec<i64>>(), radii);
    let start = Life::new(0);
    let mut between: i64 = life.shape[1].angle - life.shape[0].angle;
    if between < 0 {
        between += FULL_TURN;
    }
    assert_eq!(between, start.shape[1].angle - start.shape[0].angle);
}

#[test]
fn is_wf_wants_three_corners_within_reach() {
    let mut life = Life::new(0);
    life.shape.pop();
    assert!(!life.is_wf());
    let mut life = Life::new(0);
    life.shape.push(Corner { radius: 0, angle: 0 });
    assert!(!life.is_wf());
    let mut life = Life::new(0);
    life.shape[1] = Corner { radius: MAX_RADIUS, angle: 0 };
    assert!(life.is_wf());
    life.shape[1] = Corner { radius: MAX_RADIUS + 1, angle: 0 };
    assert!(!life.is_wf());
    life.shape[1] = Corner { radius: -1, angle: 0 };
    assert!(!life.is_wf());
}

#[test]
fn is_wf_wants_angles_within_their_turn() {
    assert!(Corner { radius: 5, angle: -HALF_TURN }.is_wf());
    assert!(!Corner { radius: 5, angle: -HALF_TURN - 1 }.is_wf());
    assert!(Corner { radius: 5, angle: FULL_TURN - HALF_TURN - 1 }.is_wf());
    assert!(!Corner { radius: 5, angle: FULL_TURN - HALF_TURN }.is_wf());
    let mut life = Life::new(0);
    life.shape[2] = Corner { radius: 5, angle: HALF_TURN };
    assert!(!life.is_wf());
}

#[test]
fn is_wf_wants_a_heading_of_unit_length() {
    let mut life = Life::new(0);
    life.head_dir = Point { x: 0, y: -UNIT };
    assert!(life.is_wf());
    life.head_dir = Point { x: 1, y: -UNIT };
    assert!(!life.is_wf());
    life.head_dir = Point { x: 800_000_000, y: 800_000_000 };
    assert!(!life.is_wf());
    life.head_dir = Point { x: 600_000_000, y: 800_000_000 };
    assert!(life.is_wf());
    // Too short: half a unit, and no heading at all.
    life.head_dir = Point { x: 500_000_000, y: 500_000_000 };
    assert!(!life.is_wf());
    life.head_dir = Point { x: 0, y: 0 };
    assert!(!life.is_wf());
    life.head_dir = Point { x: i64::MIN, y: i64::MAX };
    assert!(!life.is_wf());
}

#[test]
fn is_wf_wants_positions_within_reach() {
    let mut life = Life::new(0);
    life.position = Point { x: REACH, y: -REACH };
    assert!(life.is_wf());
    life.position = Point { x: REACH + 1, y: 0 };
    assert!(!life.is_wf());
    let mut life = Life::new(0);
    life.last_position = Point { x: 0, y: -REACH - 1 };
    assert!(!life.is_wf());
}

#[test]
fn has_room_leaves_a_pixel_to_the_reach() {
    let mut life = Life::new(0);
    life.position = Point { x: REACH - PIXEL, y: PIXEL - REACH };
    assert!(life.has_room());
    life.position = Point { x: REACH - PIXEL + 1, y: 0 };
    assert!(!life.has_room());
    life.position = Point { x: 0, y: PIXEL - REACH - 1 };
    assert!(!life.has_room());
    // At the very edge a step still lands within reach.
    life.position = Point { x: REACH - PIXEL, y: 0 };
    life.head_dir = Point { x: UNIT, y: 0 };
    life.update_forward();
    assert_eq!(life.position, Point { x: REACH, y: 0 });
    assert!(life.is_wf());
}
