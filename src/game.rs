//! The entities of the game, their movement, their collisions and the wave
//! controller, composed into one step per tick.

use crate::geometry::{
    abs, between, div_trunc, is_isqrt, lemma_div_floor, lemma_div_trunc, lemma_isqrt,
    lemma_isqrt_at_least, lemma_sq_le, lemma_unit_near, lemma_unit_parts, scaled, translated, unit,
    Point, Vector, COORD_LIMIT, SCALE,
};
use crate::PressedKeys;
use vstd::prelude::*;

verus! {

/// Distance the player moves per tick on each axis whose key is held.
pub const PLAYER_STEP: i64 = 2_000;

/// Distance a projectile travels per tick.
pub const PROJECTILE_SPEED: i64 = 600;

/// Squared distance under which two entities touch: a contact radius of 20 units.
pub const CONTACT_DIST_SQ: i128 = 400_000_000;

/// Where the player starts.
pub const START_X: i64 = 500_000;

pub const START_Y: i64 = 500_000;

/// Enemies spawn on the horizontal line `y = SPAWN_Y`, at `x` in `[0, SPAWN_SPAN)`.
pub const SPAWN_Y: i64 = 200_000;

pub const SPAWN_SPAN: u64 = 1_000_000;

/// Enemies in a wave, per level.
pub const ENEMIES_PER_LEVEL: u16 = 10;

/// Enemy speed at level 1, and what each new level adds to it.
pub const BASE_SPEED: u32 = 500;

pub const SPEED_STEP: u32 = 100;

/// The last level whose wave size fits the wave counter.
pub const MAX_LEVEL: u16 = 6553;

/// Enemy speed at `MAX_LEVEL`.
pub const MAX_SPEED: u32 = 655_700;

/// Largest width or height an arena may have.
pub const ARENA_LIMIT: i64 = 1_000_000_000;

#[derive(Clone, Copy, Debug, PartialEq, Eq, Structural)]
pub enum Direction {
    North,
    East,
    South,
    West,
}

/// The rectangle `[0, width] x [0, height]` that bounds the player and the projectiles.
#[derive(Clone, Copy, Debug, PartialEq, Eq, Structural)]
pub struct Arena {
    pub width: i64,
    pub height: i64,
}

impl Arena {
    pub open spec fn wf(self) -> bool {
        0 <= self.width <= ARENA_LIMIT && 0 <= self.height <= ARENA_LIMIT
    }

    pub open spec fn contains(self, x: int, y: int) -> bool {
        0 <= x <= self.width && 0 <= y <= self.height
    }
}

/// A point a player or projectile may occupy: inside the largest arena.
pub open spec fn in_limits(x: int, y: int) -> bool {
    0 <= x <= ARENA_LIMIT && 0 <= y <= ARENA_LIMIT
}

/// The player.
#[derive(Clone, Debug)]
pub struct Herpooles {
    pub x: i64,
    pub y: i64,
    /// Set once an enemy catches the player; the session is then over.
    pub dead: bool,
    /// The projectiles in flight, oldest first.
    pub poo: Vec<Poo>,
    /// The direction the player faces, and fires in.
    pub bearing: Direction,
}

/// An enemy.
#[derive(Clone, Copy, Debug)]
pub struct Zombie {
    pub x: i64,
    pub y: i64,
    /// Still pursuing; cleared when a projectile kills the enemy.
    pub walking: bool,
}

/// A projectile fired by the player.
#[derive(Clone, Copy, Debug)]
pub struct Poo {
    pub x: i64,
    pub y: i64,
    /// Fixed when the projectile is fired.
    pub direction: Direction,
    /// Spent: it left the arena or struck an enemy, and goes at the end of the tick.
    pub must_clean: bool,
}

impl Herpooles {
    pub open spec fn pos(&self) -> Point {
        Point { x: self.x, y: self.y }
    }

    /// The player and every projectile lie within the largest arena.
    pub open spec fn wf(&self) -> bool {
        &&& in_limits(self.x as int, self.y as int)
        &&& forall|i: int|
            0 <= i < self.poo@.len() ==> #[trigger] self.poo@[i].within_limits()
    }

    /// A living player at the starting position, facing north, with nothing fired.
    pub fn new() -> (r: Herpooles)
        ensures
            r.x == START_X,
            r.y == START_Y,
            !r.dead,
            r.poo@.len() == 0,
            r.bearing == Direction::North,
            r.wf(),
    {
        Herpooles { x: START_X, y: START_Y, dead: false, poo: Vec::new(), bearing: Direction::North }
    }

    /// Fires a projectile from the player's position in the direction it faces.
    /// There is no cooldown and no cap: every call adds one projectile, and
    /// projectiles leave the collection when they strike or leave the arena.
    pub fn fire_poo(&mut self)
        ensures
            final(self).poo@ == old(self).poo@.push(
                Poo::fresh(old(self).x as int, old(self).y as int, old(self).bearing),
            ),
            final(self).x == old(self).x,
            final(self).y == old(self).y,
            final(self).bearing == old(self).bearing,
            final(self).dead == old(self).dead,
            old(self).wf() ==> final(self).wf(),
    {
        let p = Poo::new(&self.x, &self.y, self.bearing);
        self.poo.push(p);
    }

    pub fn is_alive(&self) -> (r: bool)
        ensures
            r == !self.dead,
    {
        !self.dead
    }

    /// The colour the player is drawn in.
    pub fn color(&self) -> (r: &'static str)
        ensures
            !self.dead ==> r@ == "green"@,
            self.dead ==> r@ == "red"@,
    {
        if self.dead {
            "red"
        } else {
            "green"
        }
    }
}

impl Poo {
    /// A projectile that has just been fired.
    pub open spec fn fresh(x: int, y: int, direction: Direction) -> Poo {
        Poo { x: x as i64, y: y as i64, direction, must_clean: false }
    }

    pub open spec fn pos(&self) -> Point {
        Point { x: self.x, y: self.y }
    }

    pub open spec fn within_limits(&self) -> bool {
        in_limits(self.x as int, self.y as int)
    }

    /// A projectile at `(x, y)` that will travel in `direction`.
    pub fn new(x: &i64, y: &i64, direction: Direction) -> (r: Poo)
        ensures
            r == Poo::fresh(*x as int, *y as int, direction),
            r.x == *x,
            r.y == *y,
    {
        Poo { x: *x, y: *y, direction, must_clean: false }
    }
}

impl Zombie {
    pub open spec fn pos(&self) -> Point {
        Point { x: self.x, y: self.y }
    }

    /// An active enemy on the spawn line, `offset` (reduced modulo the line's
    /// span) from its left end.
    pub fn on_spawn_line(offset: u64) -> (r: Zombie)
        ensures
            r.x == offset % SPAWN_SPAN,
            r.y == SPAWN_Y,
            r.walking,
    {
        Zombie { x: (offset % SPAWN_SPAN) as i64, y: SPAWN_Y, walking: true }
    }

    /// An active enemy at a random place on the spawn line.
    pub fn new() -> (r: Zombie)
        ensures
            r.spawned(),
    {
        Zombie::on_spawn_line(random_u64())
    }

    /// Active, and somewhere on the spawn line.
    pub open spec fn spawned(&self) -> bool {
        &&& 0 <= self.x < SPAWN_SPAN
        &&& self.y == SPAWN_Y
        &&& self.walking
    }

    /// The colour the enemy is drawn in.
    pub fn color(&self) -> (r: &'static str)
        ensures
            self.walking ==> r@ == "grey"@,
            !self.walking ==> r@ == "yellow"@,
    {
        if self.walking {
            "grey"
        } else {
            "yellow"
        }
    }
}

/// Relies on rand::random: a `u64` drawn from the thread-local generator.
/// Nothing is promised of its value.
#[verifier::external_body]
fn random_u64() -> (r: u64) {
    rand::random::<u64>()
}

/// The player's `x` after the right and then the left key are applied.
pub open spec fn keys_x(x: int, keys: PressedKeys, arena: Arena) -> int {
    let x1 = if keys.right && x + PLAYER_STEP <= arena.width {
        x + PLAYER_STEP
    } else {
        x
    };
    if keys.left && x1 - PLAYER_STEP >= 0 {
        x1 - PLAYER_STEP
    } else {
        x1
    }
}

/// The player's `y` after the up and then the down key are applied.
pub open spec fn keys_y(y: int, keys: PressedKeys, arena: Arena) -> int {
    let y1 = if keys.up && y - PLAYER_STEP >= 0 {
        y - PLAYER_STEP
    } else {
        y
    };
    if keys.down && y1 + PLAYER_STEP <= arena.height {
        y1 + PLAYER_STEP
    } else {
        y1
    }
}

/// The direction the player faces: that of the last key, in the order right,
/// left, up, down, that moved it; the old bearing if none did.
pub open spec fn keys_bearing(
    x: int,
    y: int,
    bearing: Direction,
    keys: PressedKeys,
    arena: Arena,
) -> Direction {
    let right = keys.right && x + PLAYER_STEP <= arena.width;
    let x1 = if right {
        x + PLAYER_STEP
    } else {
        x
    };
    let up = keys.up && y - PLAYER_STEP >= 0;
    let y1 = if up {
        y - PLAYER_STEP
    } else {
        y
    };
    if keys.down && y1 + PLAYER_STEP <= arena.height {
        Direction::South
    } else if up {
        Direction::North
    } else if keys.left && x1 - PLAYER_STEP >= 0 {
        Direction::West
    } else if right {
        Direction::East
    } else {
        bearing
    }
}

/// Moves the player by `PLAYER_STEP` along each axis whose key is held, where
/// the move keeps it inside the arena on that axis. Keys are taken in the order
/// right, left, up, down, and each move turns the player to face its way.
pub fn move_herpooles(herpooles: &mut Herpooles, pressed_keys: &PressedKeys, arena: &Arena)
    requires
        old(herpooles).wf(),
        arena.wf(),
    ensures
        final(herpooles).x == keys_x(old(herpooles).x as int, *pressed_keys, *arena),
        final(herpooles).y == keys_y(old(herpooles).y as int, *pressed_keys, *arena),
        final(herpooles).bearing == keys_bearing(
            old(herpooles).x as int,
            old(herpooles).y as int,
            old(herpooles).bearing,
            *pressed_keys,
            *arena,
        ),
        final(herpooles).dead == old(herpooles).dead,
        final(herpooles).poo@ == old(herpooles).poo@,
        final(herpooles).wf(),
        arena.contains(old(herpooles).x as int, old(herpooles).y as int) ==> arena.contains(
            final(herpooles).x as int,
            final(herpooles).y as int,
        ),
{
    if pressed_keys.right && herpooles.x <= arena.width - PLAYER_STEP {
        herpooles.bearing = Direction::East;
        herpooles.x = herpooles.x + PLAYER_STEP;
    }
    if pressed_keys.left && herpooles.x >= PLAYER_STEP {
        herpooles.bearing = Direction::West;
        herpooles.x = herpooles.x - PLAYER_STEP;
    }
    if pressed_keys.up && herpooles.y >= PLAYER_STEP {
        herpooles.bearing = Direction::North;
        herpooles.y = herpooles.y - PLAYER_STEP;
    }
    if pressed_keys.down && herpooles.y <= arena.height - PLAYER_STEP {
        herpooles.bearing = Direction::South;
        herpooles.y = herpooles.y + PLAYER_STEP;
    }
}

/// Where an enemy at `z` stands after one tick of pursuit, at `speed`, of a
/// player at `h`: it moves along the unit vector toward the player, scaled by
/// the speed. An enemy already on the player does not move.
pub open spec fn steered(z: Point, h: Point, speed: int) -> Point {
    translated(z, scaled(unit(between(z, h)), speed))
}

/// The step an enemy takes toward the player.
pub open spec fn pursuit(z: Point, h: Point, speed: int) -> Vector {
    scaled(unit(between(z, h)), speed)
}

/// The pursuit step is at most `speed` long on each axis, and never leads away
/// from the player on either axis.
proof fn lemma_pursuit_step(z: Point, h: Point, speed: int)
    requires
        z.in_field(),
        h.in_field(),
        0 <= speed <= MAX_SPEED,
    ensures
        between(z, h).x == h.x - z.x,
        between(z, h).y == h.y - z.y,
        abs(pursuit(z, h, speed).x as int) <= speed,
        abs(pursuit(z, h, speed).y as int) <= speed,
        h.x >= z.x ==> pursuit(z, h, speed).x >= 0,
        h.x <= z.x ==> pursuit(z, h, speed).x <= 0,
        h.y >= z.y ==> pursuit(z, h, speed).y >= 0,
        h.y <= z.y ==> pursuit(z, h, speed).y <= 0,
{
    let v = between(z, h);
    let s = SCALE as int;
    if !(v.x == 0 && v.y == 0) {
        lemma_unit_parts(v);
        let u = unit(v);
        lemma_scaled_component(u.x as int, speed);
        lemma_scaled_component(u.y as int, speed);
    }
}

/// A component of at most `SCALE` in magnitude, scaled by `speed`, is at most
/// `speed` in magnitude and keeps its sign.
proof fn lemma_scaled_component(c: int, speed: int)
    requires
        abs(c) <= SCALE,
        0 <= speed <= MAX_SPEED,
    ensures
        abs(div_trunc(c * speed, SCALE as int)) <= speed,
        c >= 0 ==> div_trunc(c * speed, SCALE as int) >= 0,
        c <= 0 ==> div_trunc(c * speed, SCALE as int) <= 0,
{
    let s = SCALE as int;
    lemma_div_trunc(c * speed, s);
    assert(abs(c * speed) == abs(c) * speed && abs(c) * speed <= s * speed) by (nonlinear_arith)
        requires
            0 <= speed,
            abs(c) <= s,
    ;
    lemma_div_floor(abs(c * speed), s);
    assert(abs(c * speed) / s <= speed) by (nonlinear_arith)
        requires
            (abs(c * speed) / s) * s <= abs(c * speed),
            abs(c * speed) <= s * speed,
            s > 0,
    ;
    assert(c >= 0 ==> c * speed >= 0) by (nonlinear_arith)
        requires
            speed >= 0,
    ;
    assert(c <= 0 ==> c * speed <= 0) by (nonlinear_arith)
        requires
            speed >= 0,
    ;
}

/// An enemy inside the field that pursues a player inside the largest arena
/// stays inside the field.
proof fn lemma_steered_in_field(z: Point, h: Point, speed: int)
    requires
        z.in_field(),
        in_limits(h.x as int, h.y as int),
        0 <= speed <= MAX_SPEED,
    ensures
        steered(z, h, speed).in_field(),
        steered(z, h, speed).x == z.x + pursuit(z, h, speed).x,
        steered(z, h, speed).y == z.y + pursuit(z, h, speed).y,
{
    lemma_pursuit_step(z, h, speed);
}

/// Pursuit closes in: while a still player is farther from an enemy than the
/// enemy's speed, each tick strictly shrinks the squared distance between them.
/// (Below two fixed-point steps a tick the rounded step would vanish.)
pub proof fn lemma_steering_closes_in(z: Point, h: Point, speed: int)
    requires
        z.in_field(),
        h.in_field(),
        2 <= speed <= MAX_SPEED,
        between(z, h).norm_sq() > speed * speed,
    ensures
        between(steered(z, h, speed), h).norm_sq() < between(z, h).norm_sq(),
{
    let s = SCALE as int;
    let v = between(z, h);
    lemma_pursuit_step(z, h, speed);
    let m = lemma_unit_parts(v);
    lemma_unit_near(v);
    let u = unit(v);
    let d = pursuit(z, h, speed);
    let a = abs(v.x as int);
    let b = abs(v.y as int);
    let qx = abs(u.x as int);
    let qy = abs(u.y as int);
    let ex = abs(d.x as int);
    let ey = abs(d.y as int);
    // The scaled length is at least `speed * SCALE`.
    assert(v.norm_sq() == a * a + b * b) by (nonlinear_arith)
        requires
            a == abs(v.x as int),
            b == abs(v.y as int),
    ;
    assert((speed * s) * (speed * s) <= v.norm_sq() * (s * s)) by (nonlinear_arith)
        requires
            v.norm_sq() > speed * speed,
            s > 0,
    ;
    lemma_isqrt_at_least(v.norm_sq() * (s * s), speed * s);
    // Each component of the step is no longer than the distance on that axis.
    lemma_div_floor(a * (s * s), m);
    lemma_div_floor(b * (s * s), m);
    lemma_div_trunc(u.x * speed, s);
    lemma_div_trunc(u.y * speed, s);
    assert(abs(u.x * speed) == qx * speed && abs(u.y * speed) == qy * speed) by (nonlinear_arith)
        requires
            qx == abs(u.x as int),
            qy == abs(u.y as int),
            speed >= 0,
    ;
    lemma_scaled_component(u.x as int, speed);
    lemma_scaled_component(u.y as int, speed);
    assert(d.x as int == div_trunc(u.x * speed, s) && d.y as int == div_trunc(u.y * speed, s));
    assert(ex == qx * speed / s && ey == qy * speed / s);
    lemma_div_floor(qx * speed, s);
    lemma_div_floor(qy * speed, s);
    lemma_step_within(a, qx, ex, m, speed);
    lemma_step_within(b, qy, ey, m, speed);
    // The step is not empty: one unit component reaches past SCALE / sqrt(2).
    if qx < 707 && qy < 707 {
        assert((qx + 1) * (qx + 1) + (qy + 1) * (qy + 1) <= s * s) by (nonlinear_arith)
            requires
                0 <= qx < 707,
                0 <= qy < 707,
                s == 1000,
        ;
    }
    if qx >= 707 {
        assert(qx * speed >= 1414) by (nonlinear_arith)
            requires
                qx >= 707,
                speed >= 2,
        ;
    } else {
        assert(qy * speed >= 1414) by (nonlinear_arith)
            requires
                qy >= 707,
                speed >= 2,
        ;
    }
    assert(ex + ey >= 1);
    // The new distance on each axis is the old one less the step.
    let w = between(steered(z, h, speed), h);
    assert(abs(w.x as int) == a - ex && abs(w.y as int) == b - ey);
    assert(w.norm_sq() == (a - ex) * (a - ex) + (b - ey) * (b - ey)) by (nonlinear_arith)
        requires
            abs(w.x as int) == a - ex,
            abs(w.y as int) == b - ey,
    ;
    assert((a - ex) * (a - ex) + (b - ey) * (b - ey) < a * a + b * b) by (nonlinear_arith)
        requires
            0 <= ex <= a,
            0 <= ey <= b,
            ex + ey >= 1,
    ;
}

/// A step of `e` along an axis, derived from a unit component `q` of an axis
/// distance `a`, is no longer than `a` when the scaled length `m` is at least
/// `speed * SCALE`.
proof fn lemma_step_within(a: int, q: int, e: int, m: int, speed: int)
    requires
        a >= 0,
        q >= 0,
        e >= 0,
        speed >= 0,
        m >= speed * SCALE,
        m > 0,
        q * m <= a * (SCALE * SCALE),
        e * SCALE <= q * speed,
    ensures
        e <= a,
{
    let s = SCALE as int;
    assert(e * s * m <= a * s * m) by (nonlinear_arith)
        requires
            e * s <= q * speed,
            q * m <= a * (s * s),
            m >= speed * s,
            s > 0,
            q >= 0,
            speed >= 0,
            a >= 0,
            m > 0,
    ;
    assert(e <= a) by (nonlinear_arith)
        requires
            e * s * m <= a * s * m,
            s > 0,
            m > 0,
    ;
}

/// Moves an enemy one tick toward the player at `zombie_speed`.
pub fn move_zombie(z: &mut Zombie, h: &Herpooles, zombie_speed: &u32)
    requires
        old(z).pos().in_field(),
        h.wf(),
        *zombie_speed <= MAX_SPEED,
    ensures
        final(z).pos() == steered(old(z).pos(), h.pos(), *zombie_speed as int),
        final(z).walking == old(z).walking,
        final(z).pos().in_field(),
{
    let zp = Point { x: z.x, y: z.y };
    let hp = Point { x: h.x, y: h.y };
    proof {
        lemma_pursuit_step(zp, hp, *zombie_speed as int);
        lemma_steered_in_field(zp, hp, *zombie_speed as int);
    }
    let zh_vec = Vector::new(zp, hp);
    let u = zh_vec.unit_vec();
    proof {
        if !(zh_vec.x == 0 && zh_vec.y == 0) {
            lemma_unit_parts(zh_vec);
        }
        assert(abs(u.x as int) <= SCALE && abs(u.y as int) <= SCALE);
        assert(abs(u.x * (*zombie_speed as i64)) <= i64::MAX && abs(u.y * (*zombie_speed as i64))
            <= i64::MAX) by (nonlinear_arith)
            requires
                abs(u.x as int) <= 1000,
                abs(u.y as int) <= 1000,
                0 <= *zombie_speed <= 655_700,
        ;
    }
    let mv_vec: Vector = u * (*zombie_speed as i64);
    let pos: Point = zp + mv_vec;
    z.x = pos.x;
    z.y = pos.y;
}

/// One arena unit in the direction `d`.
pub open spec fn heading(d: Direction) -> Vector {
    match d {
        Direction::North => Vector { x: 0, y: -SCALE as i64 },
        Direction::East => Vector { x: SCALE, y: 0 },
        Direction::South => Vector { x: 0, y: SCALE },
        Direction::West => Vector { x: -SCALE as i64, y: 0 },
    }
}

/// How far a projectile heading `d` travels in one tick.
pub open spec fn flight(d: Direction) -> Vector {
    match d {
        Direction::North => Vector { x: 0, y: -PROJECTILE_SPEED as i64 },
        Direction::East => Vector { x: PROJECTILE_SPEED, y: 0 },
        Direction::South => Vector { x: 0, y: PROJECTILE_SPEED },
        Direction::West => Vector { x: -PROJECTILE_SPEED as i64, y: 0 },
    }
}

/// A heading is its own unit vector, and scaling it by the projectile speed
/// gives the flight of one tick.
proof fn lemma_heading_flight(d: Direction)
    ensures
        unit(heading(d)) == heading(d),
        scaled(unit(heading(d)), PROJECTILE_SPEED as int) == flight(d),
{
    let s = SCALE as int;
    let v = heading(d);
    assert((v.x == 0 && (v.y == 1000 || v.y == -1000)) || (v.y == 0 && (v.x == 1000 || v.x
        == -1000)));
    assert(v.norm_sq() == 1_000_000) by (nonlinear_arith)
        requires
            (v.x == 0 && (v.y == 1000 || v.y == -1000)) || (v.y == 0 && (v.x == 1000 || v.x
                == -1000)),
    ;
    assert(v.norm_sq() * (s * s) == 1_000_000_000_000);
    assert(is_isqrt(1_000_000_000_000, 1_000_000));
    lemma_isqrt(1_000_000_000_000, 1_000_000);
    assert(div_trunc(1_000_000_000, 1_000_000) == 1000);
    assert(div_trunc(-1_000_000_000, 1_000_000) == -1000);
    assert(div_trunc(600_000, 1000) == 600);
    assert(div_trunc(-600_000, 1000) == -600);
}

/// A projectile moved one tick along its heading.
pub open spec fn flown(p: Poo) -> Poo {
    let v = flight(p.direction);
    Poo { x: (p.x + v.x) as i64, y: (p.y + v.y) as i64, ..p }
}

/// Moves a projectile one tick along its heading: `PROJECTILE_SPEED` along one axis.
pub fn move_poo(p: &mut Poo)
    requires
        old(p).within_limits(),
    ensures
        *final(p) == flown(*old(p)),
        final(p).pos().in_field(),
{
    proof {
        lemma_heading_flight(p.direction);
    }
    let (p_next_x, p_next_y) = match p.direction {
        Direction::North => (p.x, p.y - SCALE),
        Direction::East => (p.x + SCALE, p.y),
        Direction::South => (p.x, p.y + SCALE),
        Direction::West => (p.x - SCALE, p.y),
    };
    let direction_vec = Vector::new(Point { x: p.x, y: p.y }, Point { x: p_next_x, y: p_next_y });
    assert(direction_vec == heading(p.direction));
    let u = direction_vec.unit_vec();
    assert(u == heading(p.direction));
    assert((u.x == 0 && (u.y == 1000 || u.y == -1000)) || (u.y == 0 && (u.x == 1000 || u.x
        == -1000)));
    assert(abs(u.x * PROJECTILE_SPEED) <= i64::MAX && abs(u.y * PROJECTILE_SPEED) <= i64::MAX)
        by (nonlinear_arith)
        requires
            -1000 <= u.x <= 1000,
            -1000 <= u.y <= 1000,
    ;
    let mv_vec = u * PROJECTILE_SPEED;
    p.x = p.x + mv_vec.x;
    p.y = p.y + mv_vec.y;
}

/// Two points touch when their squared distance is under `CONTACT_DIST_SQ`.
pub open spec fn touching(a: Point, b: Point) -> bool {
    (a.x - b.x) * (a.x - b.x) + (a.y - b.y) * (a.y - b.y) < CONTACT_DIST_SQ
}

/// Squared distance between two points of the field.
fn dist_sq(a: Point, b: Point) -> (r: i128)
    requires
        a.in_field(),
        b.in_field(),
    ensures
        r == (a.x - b.x) * (a.x - b.x) + (a.y - b.y) * (a.y - b.y),
{
    let dx: i128 = a.x as i128 - b.x as i128;
    let dy: i128 = a.y as i128 - b.y as i128;
    proof {
        lemma_sq_le(abs(dx as int), 2 * COORD_LIMIT);
        lemma_sq_le(abs(dy as int), 2 * COORD_LIMIT);
        assert(dx * dx == abs(dx as int) * abs(dx as int) && dy * dy == abs(dy as int) * abs(
            dy as int,
        )) by (nonlinear_arith);
    }
    dx * dx + dy * dy
}

/// Whether an enemy has caught the player.
pub fn zombies_reached(h: &Herpooles, z: &Zombie) -> (r: bool)
    requires
        h.wf(),
        z.pos().in_field(),
    ensures
        r == touching(h.pos(), z.pos()),
{
    dist_sq(Point { x: h.x, y: h.y }, Point { x: z.x, y: z.y }) < CONTACT_DIST_SQ
}

/// A projectile not yet spent that touches an enemy.
pub open spec fn poo_hits(p: Poo, z: Zombie) -> bool {
    !p.must_clean && touching(p.pos(), z.pos())
}

/// Whether a projectile strikes an enemy: it must not be spent already.
pub fn hit_zombie(p: &Poo, z: &Zombie) -> (r: bool)
    requires
        p.pos().in_field(),
        z.pos().in_field(),
    ensures
        r == poo_hits(*p, *z),
{
    if p.must_clean {
        false
    } else {
        dist_sq(Point { x: p.x, y: p.y }, Point { x: z.x, y: z.y }) < CONTACT_DIST_SQ
    }
}

/// Enemy `i` is the first in `zs` that projectile `p` strikes.
pub open spec fn first_hit(p: Poo, zs: Seq<Zombie>, i: int) -> bool {
    &&& 0 <= i < zs.len()
    &&& poo_hits(p, zs[i])
    &&& forall|k: int| 0 <= k < i ==> !poo_hits(p, #[trigger] zs[k])
}

/// Projectile `p` strikes some enemy of `zs`.
pub open spec fn scores(p: Poo, zs: Seq<Zombie>) -> bool {
    exists|i: int| 0 <= i < zs.len() && poo_hits(p, #[trigger] zs[i])
}

/// Some projectile of `ps` has enemy `i` as the first it strikes.
pub open spec fn killed(ps: Seq<Poo>, zs: Seq<Zombie>, i: int) -> bool {
    exists|j: int| 0 <= j < ps.len() && #[trigger] first_hit(ps[j], zs, i)
}

/// Projectiles after the collision check: each that strikes an enemy is spent.
pub open spec fn struck_poos(ps: Seq<Poo>, zs: Seq<Zombie>) -> Seq<Poo> {
    Seq::new(ps.len(), |j: int| Poo { must_clean: ps[j].must_clean || scores(ps[j], zs), ..ps[j] })
}

/// Enemies after the collision check: each that some projectile strikes first
/// is no longer active.
pub open spec fn struck_zombies(ps: Seq<Poo>, zs: Seq<Zombie>) -> Seq<Zombie> {
    Seq::new(zs.len(), |i: int| Zombie { walking: zs[i].walking && !killed(ps, zs, i), ..zs[i] })
}

/// The number of projectiles of `ps` that strike an enemy of `zs`: one point each.
pub open spec fn kill_count(ps: Seq<Poo>, zs: Seq<Zombie>) -> nat
    decreases ps.len(),
{
    if ps.len() == 0 {
        0
    } else {
        kill_count(ps.drop_last(), zs) + if scores(ps.last(), zs) {
            1nat
        } else {
            0nat
        }
    }
}

pub open spec fn poos_in_field(ps: Seq<Poo>) -> bool {
    forall|j: int| 0 <= j < ps.len() ==> (#[trigger] ps[j]).pos().in_field()
}

pub open spec fn zombies_in_field(zs: Seq<Zombie>) -> bool {
    forall|i: int| 0 <= i < zs.len() ==> (#[trigger] zs[i]).pos().in_field()
}

/// The first enemy that `p` strikes, if any.
fn first_struck(p: &Poo, zombies: &Vec<Zombie>) -> (r: Option<usize>)
    requires
        p.pos().in_field(),
        zombies_in_field(zombies@),
    ensures
        match r {
            Some(i) => first_hit(*p, zombies@, i as int),
            None => !scores(*p, zombies@),
        },
{
    let mut i: usize = 0;
    while i < zombies.len()
        invariant
            0 <= i <= zombies@.len(),
            p.pos().in_field(),
            zombies_in_field(zombies@),
            forall|k: int| 0 <= k < i ==> !poo_hits(*p, #[trigger] zombies@[k]),
        decreases zombies@.len() - i,
    {
        if hit_zombie(p, &zombies[i]) {
            return Some(i);
        }
        i = i + 1;
    }
    None
}

/// Checks every projectile against every enemy. A projectile not yet spent
/// that touches an enemy becomes spent, the enemy inactive, and it scores one
/// point; a spent projectile strikes nothing more, so none scores twice. The
/// outcome is the same as taking the pairs enemy by enemy.
pub fn strike_zombies(poo: &mut Vec<Poo>, zombies: &mut Vec<Zombie>) -> (kills: u64)
    requires
        poos_in_field(old(poo)@),
        zombies_in_field(old(zombies)@),
    ensures
        final(poo)@ == struck_poos(old(poo)@, old(zombies)@),
        final(zombies)@ == struck_zombies(old(poo)@, old(zombies)@),
        kills == kill_count(old(poo)@, old(zombies)@),
        kills <= old(poo)@.len(),
{
    let ghost ps0 = poo@;
    let ghost zs0 = zombies@;
    let n = poo.len();
    let mut kills: u64 = 0;
    let mut j: usize = 0;
    while j < n
        invariant
            0 <= j <= n,
            n == ps0.len(),
            poo@.len() == n,
            zombies@.len() == zs0.len(),
            poos_in_field(ps0),
            zombies_in_field(zs0),
            forall|k: int| 0 <= k < j ==> poo@[k] == struck_poos(ps0, zs0)[k],
            forall|k: int| j <= k < n ==> poo@[k] == ps0[k],
            forall|i: int|
                0 <= i < zs0.len() ==> zombies@[i] == #[trigger] struck_zombies(ps0.take(j as int), zs0)[i],
            kills == kill_count(ps0.take(j as int), zs0),
            kills <= j,
        decreases n - j,
    {
        let ghost before = zombies@;
        proof {
            assert forall|i: int| 0 <= i < zs0.len() implies (#[trigger] before[i]).pos() == zs0[i].pos()
                && before[i].pos().in_field() by {
                assert(before[i] == struck_zombies(ps0.take(j as int), zs0)[i]);
            }
            assert forall|i: int| 0 <= i < zs0.len() implies #[trigger] poo_hits(ps0[j as int], before[i])
                == poo_hits(ps0[j as int], zs0[i]) by {
                assert(before[i] == struck_zombies(ps0.take(j as int), zs0)[i]);
            }
            assert(ps0.take(j + 1).drop_last() =~= ps0.take(j as int));
        }
        let p = poo[j];
        let hit = first_struck(&p, zombies);
        let ghost hi: int = match hit {
            Some(i0) => i0 as int,
            None => -1,
        };
        proof {
            assert(p == ps0[j as int]);
            // Only the first enemy struck by projectile `j` is killed by it.
            assert forall|i: int| 0 <= i < zs0.len() implies #[trigger] first_hit(ps0[j as int], zs0, i)
                == (hi == i) by {
                if first_hit(ps0[j as int], zs0, i) {
                    assert(poo_hits(p, before[i]));
                    if 0 <= hi && hi < i {
                        assert(poo_hits(p, before[hi]));
                        assert(!poo_hits(ps0[j as int], zs0[hi]));
                    } else if hi > i {
                        assert(!poo_hits(p, before[i]));
                    }
                }
                if hi == i {
                    assert(first_hit(p, before, i));
                    assert forall|k: int| 0 <= k < i implies !poo_hits(ps0[j as int], #[trigger] zs0[k]) by {
                        assert(!poo_hits(p, before[k]));
                    }
                }
            }
            assert(scores(ps0[j as int], zs0) == (hi >= 0)) by {
                if scores(ps0[j as int], zs0) {
                    let w = choose|i: int| 0 <= i < zs0.len() && poo_hits(ps0[j as int], #[trigger] zs0[i]);
                    assert(poo_hits(p, before[w]));
                }
                if hi >= 0 {
                    assert(poo_hits(p, before[hi]));
                    assert(poo_hits(ps0[j as int], zs0[hi]));
                }
            }
            assert forall|i: int| 0 <= i < zs0.len() implies #[trigger] killed(ps0.take(j + 1), zs0, i)
                == (killed(ps0.take(j as int), zs0, i) || hi == i) by {
                let t = ps0.take(j + 1);
                if killed(t, zs0, i) {
                    let jj = choose|jj: int| 0 <= jj < t.len() && #[trigger] first_hit(t[jj], zs0, i);
                    if jj < j {
                        assert(ps0.take(j as int)[jj] == t[jj]);
                    }
                }
                if killed(ps0.take(j as int), zs0, i) {
                    let jj = choose|jj: int|
                        0 <= jj < j && #[trigger] first_hit(ps0.take(j as int)[jj], zs0, i);
                    assert(t[jj] == ps0.take(j as int)[jj]);
                }
                if hi == i {
                    assert(t[j as int] == ps0[j as int]);
                    assert(first_hit(t[j as int], zs0, i));
                }
            }
        }
        match hit {
            Some(i) => {
                poo.set(j, Poo { must_clean: true, ..p });
                let z = zombies[i];
                zombies.set(i, Zombie { walking: false, ..z });
                kills = kills + 1;
            },
            None => {},
        }
        proof {
            assert forall|i: int| 0 <= i < zs0.len() implies zombies@[i] == #[trigger] struck_zombies(
                ps0.take(j + 1),
                zs0,
            )[i] by {
                assert(before[i] == struck_zombies(ps0.take(j as int), zs0)[i]);
                assert(killed(ps0.take(j + 1), zs0, i) == (killed(ps0.take(j as int), zs0, i) || hi
                    == i));
            }
        }
        j = j + 1;
    }
    proof {
        assert(ps0.take(n as int) =~= ps0);
        assert(poo@ =~= struck_poos(ps0, zs0));
        assert(zombies@ =~= struck_zombies(ps0, zs0));
    }
    kills
}

/// A projectile after one tick of flight, spent if it has left the arena.
pub open spec fn flown_in(p: Poo, arena: Arena) -> Poo {
    let q = flown(p);
    Poo { must_clean: q.must_clean || !arena.contains(q.x as int, q.y as int), ..q }
}

/// An enemy after one tick of pursuit of a player at `h`.
pub open spec fn chased(z: Zombie, h: Point, speed: int) -> Zombie {
    let q = steered(z.pos(), h, speed);
    Zombie { x: q.x, y: q.y, walking: z.walking }
}

pub open spec fn poos_within_limits(ps: Seq<Poo>) -> bool {
    forall|j: int| 0 <= j < ps.len() ==> (#[trigger] ps[j]).within_limits()
}

/// Flies every projectile one tick and marks those that left the arena.
fn advance_poos(poo: &mut Vec<Poo>, arena: &Arena)
    requires
        poos_within_limits(old(poo)@),
    ensures
        final(poo)@ == Seq::new(old(poo)@.len(), |j: int| flown_in(old(poo)@[j], *arena)),
        poos_in_field(final(poo)@),
{
    let ghost ps0 = poo@;
    let n = poo.len();
    let mut j: usize = 0;
    while j < n
        invariant
            0 <= j <= n,
            n == ps0.len(),
            poo@.len() == n,
            poos_within_limits(ps0),
            forall|k: int| 0 <= k < j ==> #[trigger] poo@[k] == flown_in(ps0[k], *arena),
            forall|k: int| 0 <= k < j ==> (#[trigger] poo@[k]).pos().in_field(),
            forall|k: int| j <= k < n ==> #[trigger] poo@[k] == ps0[k],
        decreases n - j,
    {
        let mut p = poo[j];
        assert(p.within_limits());
        move_poo(&mut p);
        if p.x < 0 || p.x > arena.width || p.y < 0 || p.y > arena.height {
            p.must_clean = true;
        }
        poo.set(j, p);
        j = j + 1;
    }
    assert(poo@ =~= Seq::new(ps0.len(), |j: int| flown_in(ps0[j], *arena)));
}

/// Moves every enemy one tick toward the player.
fn steer_zombies(zombies: &mut Vec<Zombie>, h: &Herpooles, speed: u32)
    requires
        zombies_in_field(old(zombies)@),
        h.wf(),
        speed <= MAX_SPEED,
    ensures
        final(zombies)@ == Seq::new(
            old(zombies)@.len(),
            |i: int| chased(old(zombies)@[i], h.pos(), speed as int),
        ),
        zombies_in_field(final(zombies)@),
{
    let ghost zs0 = zombies@;
    let n = zombies.len();
    let mut i: usize = 0;
    while i < n
        invariant
            0 <= i <= n,
            n == zs0.len(),
            zombies@.len() == n,
            zombies_in_field(zs0),
            h.wf(),
            speed <= MAX_SPEED,
            forall|k: int| 0 <= k < i ==> #[trigger] zombies@[k] == chased(zs0[k], h.pos(), speed as int),
            forall|k: int| 0 <= k < i ==> (#[trigger] zombies@[k]).pos().in_field(),
            forall|k: int| i <= k < n ==> #[trigger] zombies@[k] == zs0[k],
        decreases n - i,
    {
        let mut z = zombies[i];
        assert(z.pos().in_field());
        move_zombie(&mut z, h, &speed);
        zombies.set(i, z);
        i = i + 1;
    }
    assert(zombies@ =~= Seq::new(zs0.len(), |i: int| chased(zs0[i], h.pos(), speed as int)));
}

/// Some enemy of `zs` touches the point `h`.
pub open spec fn caught(h: Point, zs: Seq<Zombie>) -> bool {
    exists|i: int| 0 <= i < zs.len() && touching(h, (#[trigger] zs[i]).pos())
}

/// Whether any enemy has caught the player; never so when there are none.
fn any_zombie_reached(h: &Herpooles, zombies: &Vec<Zombie>) -> (r: bool)
    requires
        h.wf(),
        zombies_in_field(zombies@),
    ensures
        r == caught(h.pos(), zombies@),
{
    let mut i: usize = 0;
    while i < zombies.len()
        invariant
            0 <= i <= zombies@.len(),
            h.wf(),
            zombies_in_field(zombies@),
            forall|k: int| 0 <= k < i ==> !touching(h.pos(), (#[trigger] zombies@[k]).pos()),
        decreases zombies@.len() - i,
    {
        if zombies_reached(h, &zombies[i]) {
            return true;
        }
        i = i + 1;
    }
    false
}

pub open spec fn is_live_poo(p: Poo) -> bool {
    !p.must_clean
}

pub open spec fn is_live_zombie(z: Zombie) -> bool {
    z.walking
}

/// Removes the spent projectiles, keeping the others in order.
fn remove_spent(poo: &mut Vec<Poo>)
    ensures
        final(poo)@ == old(poo)@.filter(|p: Poo| is_live_poo(p)),
{
    let ghost ps0 = poo@;
    let mut kept: Vec<Poo> = Vec::new();
    let mut j: usize = 0;
    while j < poo.len()
        invariant
            0 <= j <= ps0.len(),
            poo@ == ps0,
            kept@ == ps0.take(j as int).filter(|p: Poo| is_live_poo(p)),
        decreases ps0.len() - j,
    {
        let p = poo[j];
        proof {
            assert(ps0.take(j + 1) =~= ps0.take(j as int).push(p));
            ps0.take(j as int).lemma_filter_push(p, |p: Poo| is_live_poo(p));
        }
        if !p.must_clean {
            kept.push(p);
        }
        j = j + 1;
    }
    assert(ps0.take(ps0.len() as int) =~= ps0);
    *poo = kept;
}

/// Removes the inactive enemies, keeping the others in order.
fn remove_inactive(zombies: &mut Vec<Zombie>)
    ensures
        final(zombies)@ == old(zombies)@.filter(|z: Zombie| is_live_zombie(z)),
{
    let ghost zs0 = zombies@;
    let mut kept: Vec<Zombie> = Vec::new();
    let mut i: usize = 0;
    while i < zombies.len()
        invariant
            0 <= i <= zs0.len(),
            zombies@ == zs0,
            kept@ == zs0.take(i as int).filter(|z: Zombie| is_live_zombie(z)),
        decreases zs0.len() - i,
    {
        let z = zombies[i];
        proof {
            assert(zs0.take(i + 1) =~= zs0.take(i as int).push(z));
            zs0.take(i as int).lemma_filter_push(z, |z: Zombie| is_live_zombie(z));
        }
        if z.walking {
            kept.push(z);
        }
        i = i + 1;
    }
    assert(zs0.take(zs0.len() as int) =~= zs0);
    *zombies = kept;
}

/// The wave controller: the difficulty level, the wave size and enemy speed
/// that follow from it, the score, and the live enemies.
#[derive(Debug)]
pub struct Controller {
    pub level: u16,
    pub num_zombies: u16,
    pub speed: u32,
    pub zombies: Vec<Zombie>,
    pub score: u64,
}

/// The state after the wave check: unchanged while enemies remain; otherwise
/// the next level, with its wave size and speed, and a full wave of fresh
/// enemies on the spawn line.
pub open spec fn checked_wave(c0: Controller, c1: Controller) -> bool {
    if c0.zombies@.len() > 0 {
        &&& c1.level == c0.level
        &&& c1.num_zombies == c0.num_zombies
        &&& c1.speed == c0.speed
        &&& c1.score == c0.score
        &&& c1.zombies@ == c0.zombies@
    } else {
        &&& c1.level == c0.level + 1
        &&& c1.num_zombies == c1.level * ENEMIES_PER_LEVEL
        &&& c1.speed == c0.speed + SPEED_STEP
        &&& c1.score == c0.score
        &&& c1.zombies@.len() == c1.num_zombies
        &&& forall|i: int| 0 <= i < c1.zombies@.len() ==> (#[trigger] c1.zombies@[i]).spawned()
    }
}

impl Controller {
    /// The wave size and the speed are those of the level, and every enemy is in the field.
    pub open spec fn wf(&self) -> bool {
        &&& 1 <= self.level <= MAX_LEVEL
        &&& self.num_zombies == self.level * ENEMIES_PER_LEVEL
        &&& self.speed == BASE_SPEED + SPEED_STEP * (self.level - 1)
        &&& zombies_in_field(self.zombies@)
    }

    /// A controller at level 1, with no score, in charge of `zombies`.
    pub fn new(zombies: Vec<Zombie>) -> (r: Controller)
        requires
            zombies_in_field(zombies@),
        ensures
            r.level == 1,
            r.num_zombies == ENEMIES_PER_LEVEL,
            r.speed == BASE_SPEED,
            r.score == 0,
            r.zombies@ == zombies@,
            r.wf(),
    {
        Controller { level: 1, num_zombies: ENEMIES_PER_LEVEL, speed: BASE_SPEED, zombies, score: 0 }
    }

    /// Starts the next wave once the enemies are all gone.
    pub fn check(&mut self)
        requires
            old(self).wf(),
            old(self).zombies@.len() == 0 ==> old(self).level < MAX_LEVEL,
        ensures
            checked_wave(*old(self), *final(self)),
            final(self).wf(),
    {
        if self.zombies.len() == 0 {
            self.reset();
        }
    }

    /// Moves to the next level and resizes the enemies to its wave size,
    /// spawning the missing ones.
    fn reset(&mut self)
        requires
            old(self).wf(),
            old(self).level < MAX_LEVEL,
        ensures
            final(self).level == old(self).level + 1,
            final(self).num_zombies == final(self).level * ENEMIES_PER_LEVEL,
            final(self).speed == old(self).speed + SPEED_STEP,
            final(self).score == old(self).score,
            final(self).zombies@.len() == final(self).num_zombies,
            forall|i: int|
                0 <= i < old(self).zombies@.len() && i < final(self).num_zombies
                    ==> #[trigger] final(self).zombies@[i] == old(self).zombies@[i],
            forall|i: int|
                old(self).zombies@.len() <= i < final(self).num_zombies
                    ==> (#[trigger] final(self).zombies@[i]).spawned(),
            final(self).wf(),
    {
        self.level = self.level + 1;
        self.num_zombies = self.level * ENEMIES_PER_LEVEL;
        self.speed = self.speed + SPEED_STEP;
        let ghost zs0 = self.zombies@;
        let target = self.num_zombies as usize;
        self.zombies.truncate(target);
        while self.zombies.len() < target
            invariant
                target == self.num_zombies,
                self.level == old(self).level + 1,
                self.num_zombies == self.level * ENEMIES_PER_LEVEL,
                self.speed == old(self).speed + SPEED_STEP,
                self.score == old(self).score,
                self.zombies@.len() <= target,
                forall|i: int|
                    0 <= i < zs0.len() && i < target && i < self.zombies@.len() ==> self.zombies@[i]
                        == zs0[i],
                forall|i: int|
                    zs0.len() <= i < self.zombies@.len() ==> (#[trigger] self.zombies@[i]).spawned(),
                zombies_in_field(self.zombies@),
                self.zombies@.len() >= (if zs0.len() < target {
                    zs0.len()
                } else {
                    target as nat
                }),
            decreases target - self.zombies@.len(),
        {
            let z = Zombie::new();
            self.zombies.push(z);
        }
    }
}

/// The outcome of one tick on a controller whose wave check has been made:
/// the player moves, the enemies pursue it and may catch it, the projectiles
/// fly and strike enemies, and what is spent or killed is removed.
pub open spec fn ticked(
    h0: Herpooles,
    c0: Controller,
    keys: PressedKeys,
    arena: Arena,
    h1: Herpooles,
    c1: Controller,
) -> bool {
    let hp = Point {
        x: keys_x(h0.x as int, keys, arena) as i64,
        y: keys_y(h0.y as int, keys, arena) as i64,
    };
    let zs = Seq::new(c0.zombies@.len(), |i: int| chased(c0.zombies@[i], hp, c0.speed as int));
    let ps = Seq::new(h0.poo@.len(), |j: int| flown_in(h0.poo@[j], arena));
    &&& h1.pos() == hp
    &&& h1.bearing == keys_bearing(h0.x as int, h0.y as int, h0.bearing, keys, arena)
    &&& h1.dead == (h0.dead || caught(hp, zs))
    &&& h1.poo@ == struck_poos(ps, zs).filter(|p: Poo| is_live_poo(p))
    &&& c1.zombies@ == struck_zombies(ps, zs).filter(|z: Zombie| is_live_zombie(z))
    &&& c1.score == c0.score + kill_count(ps, zs)
    &&& c1.level == c0.level
    &&& c1.num_zombies == c0.num_zombies
    &&& c1.speed == c0.speed
}

/// Nothing spent or inactive is left after a tick.
pub open spec fn swept(h: Herpooles, c: Controller) -> bool {
    &&& forall|j: int| 0 <= j < h.poo@.len() ==> !(#[trigger] h.poo@[j]).must_clean
    &&& forall|i: int| 0 <= i < c.zombies@.len() ==> (#[trigger] c.zombies@[i]).walking
}

/// One tick after the wave check: moves the player, steers the enemies,
/// checks whether one caught the player, flies the projectiles, resolves
/// projectile hits, and removes spent projectiles and inactive enemies.
pub fn advance(arena: &Arena, h: &mut Herpooles, pressed_keys: &PressedKeys, controller: &mut Controller)
    requires
        arena.wf(),
        old(h).wf(),
        old(controller).wf(),
        old(controller).score + old(h).poo@.len() <= u64::MAX,
    ensures
        ticked(*old(h), *old(controller), *pressed_keys, *arena, *final(h), *final(controller)),
        swept(*final(h), *final(controller)),
        final(controller).score >= old(controller).score,
        final(h).wf(),
        final(controller).wf(),
{
    move_herpooles(h, pressed_keys, arena);
    steer_zombies(&mut controller.zombies, h, controller.speed);
    if any_zombie_reached(h, &controller.zombies) {
        h.dead = true;
    }
    advance_poos(&mut h.poo, arena);
    let ghost ps = h.poo@;
    let ghost zs = controller.zombies@;
    let kills = strike_zombies(&mut h.poo, &mut controller.zombies);
    controller.score = controller.score + kills;
    remove_spent(&mut h.poo);
    remove_inactive(&mut controller.zombies);
    proof {
        lemma_swept_in_bounds(ps, zs, *arena);
        let lp = |p: Poo| is_live_poo(p);
        let lz = |z: Zombie| is_live_zombie(z);
        assert forall|j: int| 0 <= j < h.poo@.len() implies !(#[trigger] h.poo@[j]).must_clean by {
            struck_poos(ps, zs).lemma_filter_pred(lp, j);
        }
        assert forall|i: int| 0 <= i < controller.zombies@.len() implies (
        #[trigger] controller.zombies@[i]).walking by {
            struck_zombies(ps, zs).lemma_filter_pred(lz, i);
        }
    }
}

/// Every projectile kept after a tick is inside the arena, and every enemy kept
/// is in the field.
proof fn lemma_swept_in_bounds(ps: Seq<Poo>, zs: Seq<Zombie>, arena: Arena)
    requires
        arena.wf(),
        zombies_in_field(zs),
        forall|j: int|
            0 <= j < ps.len() && !(#[trigger] ps[j]).must_clean ==> arena.contains(
                ps[j].x as int,
                ps[j].y as int,
            ),
    ensures
        poos_within_limits(struck_poos(ps, zs).filter(|p: Poo| is_live_poo(p))),
        zombies_in_field(struck_zombies(ps, zs).filter(|z: Zombie| is_live_zombie(z))),
{
    let lp = |p: Poo| is_live_poo(p);
    let lz = |z: Zombie| is_live_zombie(z);
    let sp = struck_poos(ps, zs);
    let sz = struck_zombies(ps, zs);
    let fp = sp.filter(lp);
    let fz = sz.filter(lz);
    assert forall|j: int| 0 <= j < fp.len() implies (#[trigger] fp[j]).within_limits() by {
        let e = fp[j];
        assert(fp.contains(e));
        sp.lemma_filter_contains_rev(lp, e);
        sp.lemma_filter_pred(lp, j);
        let k = choose|k: int| 0 <= k < sp.len() && sp[k] == e;
        assert(!ps[k].must_clean);
    }
    assert forall|i: int| 0 <= i < fz.len() implies (#[trigger] fz[i]).pos().in_field() by {
        let e = fz[i];
        assert(fz.contains(e));
        sz.lemma_filter_contains_rev(lz, e);
        let k = choose|k: int| 0 <= k < sz.len() && sz[k] == e;
        assert(zs[k].pos().in_field());
    }
}

/// One tick of the game: the wave check, then `advance`.
pub fn step(arena: &Arena, h: &mut Herpooles, pressed_keys: &PressedKeys, controller: &mut Controller)
    requires
        arena.wf(),
        old(h).wf(),
        old(controller).wf(),
        old(controller).zombies@.len() == 0 ==> old(controller).level < MAX_LEVEL,
        old(controller).score + old(h).poo@.len() <= u64::MAX,
    ensures
        exists|mid: Controller|
            checked_wave(*old(controller), mid) && ticked(
                *old(h),
                mid,
                *pressed_keys,
                *arena,
                *final(h),
                *final(controller),
            ),
        swept(*final(h), *final(controller)),
        final(controller).score >= old(controller).score,
        final(h).wf(),
        final(controller).wf(),
{
    controller.check();
    let ghost mid = *controller;
    advance(arena, h, pressed_keys, controller);
    assert(checked_wave(*old(controller), mid));
}

} // verus!
