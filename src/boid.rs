use crate::config::{Config, SPEED_LIMIT, UNIT, WEIGHT_LIMIT};
use crate::vec2::{
    abs, bounded, clamp_length, div_toward_zero, div_trunc, lemma_average_bound,
    lemma_norm_bounds_components, lemma_square_monotone, lemma_square_nonneg, norm2, scale_to,
    vadd, vsub, Vec2, SUM_LIMIT, VEC_LIMIT,
};
use crate::random::random_in;
use rand::rngs::StdRng;
use vstd::prelude::*;

verus! {

/// Bound on each position component an agent may hold.
pub const POS_LIMIT: i64 = 0x10_0000_0000;

/// Bound on each acceleration component an agent may hold.
pub const ACCEL_LIMIT: i64 = 0x20_0000_0000;

/// Bound on the acceleration an agent may carry into `flock`.
pub const REST_ACCEL_LIMIT: i64 = 0x10_0000_0000;

/// Drawing size given to agents made by `Boid::rand_new`.
pub const AGENT_RADIUS: i64 = 8 * UNIT;

/// Largest population the simulation handles.
pub const MAX_AGENTS: usize = 0x10_0000;

/// One simulated agent: kinematic state and a drawing size.
#[derive(Clone, Copy, Debug, PartialEq, Eq, Structural)]
pub struct Boid {
    pub position: Vec2,
    pub velocity: Vec2,
    pub acceleration: Vec2,
    pub radius: i64,
}

impl Boid {
    /// Components lie in the ranges on which the rules never overflow.
    pub open spec fn in_bounds(&self) -> bool {
        &&& bounded(self.position@, POS_LIMIT as int)
        &&& bounded(self.velocity@, SPEED_LIMIT as int)
        &&& bounded(self.acceleration@, ACCEL_LIMIT as int)
    }
}

pub open spec fn all_in_bounds(s: Seq<Boid>) -> bool {
    forall|i: int| 0 <= i < s.len() ==> #[trigger] s[i].in_bounds()
}

/// Vector from `o` to `me`.
pub open spec fn offset(me: Boid, o: Boid) -> (int, int) {
    vsub(me.position@, o.position@)
}

/// `o` is strictly within distance `r` of `me`, and not at the same point.
pub open spec fn is_neighbor(me: Boid, o: Boid, r: int) -> bool {
    0 < norm2(offset(me, o)) && norm2(offset(me, o)) < r * r
}

/// How many agents of `s` are neighbors of `me` within `r`.
pub open spec fn neighbor_count(me: Boid, s: Seq<Boid>, r: int) -> int
    decreases s.len(),
{
    if s.len() == 0 {
        0
    } else {
        neighbor_count(me, s.drop_last(), r) + if is_neighbor(me, s.last(), r) {
            1int
        } else {
            0int
        }
    }
}

/// Sum of `term` over the agents of `s` that are neighbors of `me` within `r`.
pub open spec fn neighbor_sum(me: Boid, s: Seq<Boid>, r: int, term: spec_fn(Boid) -> (int, int)) -> (
    int,
    int,
)
    decreases s.len(),
{
    if s.len() == 0 {
        (0, 0)
    } else {
        let rest = neighbor_sum(me, s.drop_last(), r, term);
        if is_neighbor(me, s.last(), r) {
            vadd(rest, term(s.last()))
        } else {
            rest
        }
    }
}

/// Unit vector pointing from a neighbor to `me`.
pub open spec fn away_from(me: Boid) -> spec_fn(Boid) -> (int, int) {
    |o: Boid| scale_to(offset(me, o), UNIT as int)
}

pub open spec fn velocity_of() -> spec_fn(Boid) -> (int, int) {
    |o: Boid| o.velocity@
}

pub open spec fn position_of() -> spec_fn(Boid) -> (int, int) {
    |o: Boid| o.position@
}

pub open spec fn average(sum: (int, int), n: int) -> (int, int) {
    (div_trunc(sum.0, n), div_trunc(sum.1, n))
}

/// Force that turns `velocity` toward `dir` at full speed, no stronger than
/// the force limit; none when `dir` is the zero vector.
pub open spec fn steering(dir: (int, int), velocity: (int, int), cfg: Config) -> (int, int) {
    if norm2(dir) == 0 {
        (0, 0)
    } else {
        clamp_length(vsub(scale_to(dir, cfg.max_speed as int), velocity), cfg.max_force as int)
    }
}

pub open spec fn separation(me: Boid, s: Seq<Boid>, cfg: Config) -> (int, int) {
    let r = cfg.separation_radius as int;
    let n = neighbor_count(me, s, r);
    if n == 0 {
        (0, 0)
    } else {
        steering(average(neighbor_sum(me, s, r, away_from(me)), n), me.velocity@, cfg)
    }
}

pub open spec fn alignment(me: Boid, s: Seq<Boid>, cfg: Config) -> (int, int) {
    let r = cfg.alignment_radius as int;
    let n = neighbor_count(me, s, r);
    if n == 0 {
        (0, 0)
    } else {
        steering(average(neighbor_sum(me, s, r, velocity_of()), n), me.velocity@, cfg)
    }
}

pub open spec fn seeking(me: Boid, target: (int, int), cfg: Config) -> (int, int) {
    steering(vsub(target, me.position@), me.velocity@, cfg)
}

pub open spec fn cohesion(me: Boid, s: Seq<Boid>, cfg: Config) -> (int, int) {
    let r = cfg.cohesion_radius as int;
    let n = neighbor_count(me, s, r);
    if n == 0 {
        (0, 0)
    } else {
        seeking(me, average(neighbor_sum(me, s, r, position_of()), n), cfg)
    }
}

/// `f` times the weight `w`, given in thousandths.
pub open spec fn weighted(f: (int, int), w: int) -> (int, int) {
    (div_trunc(f.0 * w, 1000), div_trunc(f.1 * w, 1000))
}

/// Acceleration after the three weighted rules are added to it.
pub open spec fn flock_acceleration(me: Boid, s: Seq<Boid>, cfg: Config) -> (int, int) {
    vadd(
        vadd(
            vadd(me.acceleration@, weighted(separation(me, s, cfg), cfg.separation_weight as int)),
            weighted(alignment(me, s, cfg), cfg.alignment_weight as int),
        ),
        weighted(cohesion(me, s, cfg), cfg.cohesion_weight as int),
    )
}

/// Toroidal wrap of one coordinate: past one edge it jumps to the other.
pub open spec fn wrap(x: int, half: int) -> int {
    if x > half {
        -half
    } else if x < -half {
        half
    } else {
        x
    }
}

pub open spec fn wrap_point(p: (int, int), cfg: Config) -> (int, int) {
    (wrap(p.0, cfg.half_width()), wrap(p.1, cfg.half_height()))
}

pub open spec fn in_world(p: (int, int), cfg: Config) -> bool {
    abs(p.0) <= cfg.half_width() && abs(p.1) <= cfg.half_height()
}

/// Velocity after one tick against the neighbors `s`.
pub open spec fn next_velocity(me: Boid, s: Seq<Boid>, cfg: Config) -> (int, int) {
    clamp_length(vadd(me.velocity@, flock_acceleration(me, s, cfg)), cfg.max_speed as int)
}

/// Position after one tick against the neighbors `s`.
pub open spec fn next_position(me: Boid, s: Seq<Boid>, cfg: Config) -> (int, int) {
    wrap_point(vadd(me.position@, next_velocity(me, s, cfg)), cfg)
}

/// `a` after one tick against the neighbor candidates `s`.
pub open spec fn stepped(a: Boid, s: Seq<Boid>, cfg: Config) -> Boid {
    let v = next_velocity(a, s, cfg);
    let p = next_position(a, s, cfg);
    Boid {
        position: Vec2 { x: p.0 as i64, y: p.1 as i64 },
        velocity: Vec2 { x: v.0 as i64, y: v.1 as i64 },
        acceleration: Vec2 { x: 0, y: 0 },
        radius: a.radius,
    }
}

proof fn lemma_take_step(s: Seq<Boid>, i: int)
    requires
        0 <= i < s.len(),
    ensures
        s.take(i + 1).drop_last() == s.take(i),
        s.take(i + 1).last() == s[i],
        s.take(i + 1).len() == i + 1,
{
    assert(s.take(i + 1).drop_last() =~= s.take(i));
}

proof fn lemma_steering_bounds(dir: (int, int), velocity: (int, int), cfg: Config)
    requires
        cfg.wf(),
    ensures
        norm2(steering(dir, velocity, cfg)) <= cfg.max_force * cfg.max_force,
        bounded(steering(dir, velocity, cfg), cfg.max_force as int),
{
    lemma_square_nonneg(cfg.max_force as int);
    if norm2(dir) != 0 {
        let v = vsub(scale_to(dir, cfg.max_speed as int), velocity);
        if norm2(v) > cfg.max_force * cfg.max_force {
            assert(norm2(v) > 0);
            crate::vec2::lemma_scale_to_bounds(v, cfg.max_force as int);
        }
    }
    lemma_norm_bounds_components(steering(dir, velocity, cfg), cfg.max_force as int);
}

/// Applying a weight of at most ten to a force within the speed limit.
proof fn lemma_weighted_bounds(f: (int, int), w: int)
    requires
        bounded(f, SPEED_LIMIT as int),
        0 <= w <= WEIGHT_LIMIT,
    ensures
        bounded(weighted(f, w), 10 * SPEED_LIMIT as int),
{
    assert(abs(f.0 * w) <= 1000 * (10 * SPEED_LIMIT)) by {
        crate::vec2::lemma_abs_scaled(f.0, w);
        assert(abs(f.0) * w <= SPEED_LIMIT * WEIGHT_LIMIT) by (nonlinear_arith)
            requires
                abs(f.0) <= SPEED_LIMIT,
                0 <= w <= WEIGHT_LIMIT,
        ;
    }
    assert(abs(f.1 * w) <= 1000 * (10 * SPEED_LIMIT)) by {
        crate::vec2::lemma_abs_scaled(f.1, w);
        assert(abs(f.1) * w <= SPEED_LIMIT * WEIGHT_LIMIT) by (nonlinear_arith)
            requires
                abs(f.1) <= SPEED_LIMIT,
                0 <= w <= WEIGHT_LIMIT,
        ;
    }
    lemma_average_bound(f.0 * w, 1000, 10 * SPEED_LIMIT);
    lemma_average_bound(f.1 * w, 1000, 10 * SPEED_LIMIT);
}

/// `f` times the weight `w`, given in thousandths.
pub fn weigh(f: Vec2, w: i64) -> (r: Vec2)
    requires
        bounded(f@, SPEED_LIMIT as int),
        0 <= w <= WEIGHT_LIMIT,
    ensures
        r@ == weighted(f@, w as int),
        bounded(r@, 10 * SPEED_LIMIT as int),
{
    proof {
        lemma_weighted_bounds(f@, w as int);
        assert(abs(f.x * w) <= SPEED_LIMIT * WEIGHT_LIMIT && abs(f.y * w) <= SPEED_LIMIT
            * WEIGHT_LIMIT) by {
            crate::vec2::lemma_abs_scaled(f.x as int, w as int);
            crate::vec2::lemma_abs_scaled(f.y as int, w as int);
            assert(abs(f.x as int) * w <= SPEED_LIMIT * WEIGHT_LIMIT) by (nonlinear_arith)
                requires
                    abs(f.x as int) <= SPEED_LIMIT,
                    0 <= w <= WEIGHT_LIMIT,
            ;
            assert(abs(f.y as int) * w <= SPEED_LIMIT * WEIGHT_LIMIT) by (nonlinear_arith)
                requires
                    abs(f.y as int) <= SPEED_LIMIT,
                    0 <= w <= WEIGHT_LIMIT,
            ;
        }
    }
    Vec2 { x: div_toward_zero(f.x * w, 1000), y: div_toward_zero(f.y * w, 1000) }
}

impl Boid {
    pub fn new(position: Vec2, velocity: Vec2, radius: i64) -> (r: Boid)
        ensures
            r.position == position,
            r.velocity == velocity,
            r.acceleration@ == (0int, 0int),
            r.radius == radius,
    {
        Boid { position, velocity, acceleration: Vec2::zero(), radius }
    }

    /// An agent at rest placed uniformly in the world, with a velocity drawn
    /// from `[-max_speed, max_speed)` on each axis.
    pub fn rand_new(cfg: &Config, rng: &mut StdRng) -> (r: Boid)
        requires
            cfg.wf(),
        ensures
            in_world(r.position@, *cfg),
            -cfg.max_speed <= r.velocity.x < cfg.max_speed,
            -cfg.max_speed <= r.velocity.y < cfg.max_speed,
            r.acceleration@ == (0int, 0int),
            r.radius == AGENT_RADIUS,
            r.in_bounds(),
    {
        let half_width = cfg.width / 2;
        let half_height = cfg.height / 2;
        let x = random_in(rng, -half_width, half_width);
        let y = random_in(rng, -half_height, half_height);
        let vx = random_in(rng, -cfg.max_speed, cfg.max_speed - 1);
        let vy = random_in(rng, -cfg.max_speed, cfg.max_speed - 1);
        Boid::new(Vec2::new(x, y), Vec2::new(vx, vy), AGENT_RADIUS)
    }

    /// Whether `other` is strictly within distance `r` and not at the same point.
    pub fn is_neighbor(&self, other: &Boid, r: i64) -> (b: bool)
        requires
            self.in_bounds(),
            other.in_bounds(),
            0 <= r <= crate::config::RADIUS_LIMIT,
        ensures
            b == is_neighbor(*self, *other, r as int),
    {
        let d = self.position.minus(&other.position);
        let d2 = d.length_squared();
        proof {
            lemma_square_monotone(r as int, crate::config::RADIUS_LIMIT as int);
        }
        0 < d2 && d2 < r as i128 * r as i128
    }

    /// Force toward direction `dir` at full speed, clamped to the force limit.
    pub fn steer_toward(&self, dir: Vec2, cfg: &Config) -> (r: Vec2)
        requires
            bounded(dir@, VEC_LIMIT as int),
            bounded(self.velocity@, SPEED_LIMIT as int),
            cfg.wf(),
        ensures
            r@ == steering(dir@, self.velocity@, *cfg),
            bounded(r@, cfg.max_force as int),
            norm2(r@) <= cfg.max_force * cfg.max_force,
    {
        proof {
            lemma_steering_bounds(dir@, self.velocity@, *cfg);
        }
        if dir.length_squared() == 0 {
            Vec2::zero()
        } else {
            let desired = dir.scale_to(cfg.max_speed);
            desired.minus(&self.velocity).clamp_length(cfg.max_force)
        }
    }

    /// Steering force toward `target`; none when `target` is this position.
    pub fn seek(&self, target: Vec2, cfg: &Config) -> (r: Vec2)
        requires
            self.in_bounds(),
            bounded(target@, POS_LIMIT as int),
            cfg.wf(),
        ensures
            r@ == seeking(*self, target@, *cfg),
            bounded(r@, cfg.max_force as int),
            norm2(r@) <= cfg.max_force * cfg.max_force,
    {
        let desired = target.minus(&self.position);
        self.steer_toward(desired, cfg)
    }

    /// Steering away from the neighbors within the separation radius.
    pub fn separate(&self, boids: &Vec<Boid>, cfg: &Config) -> (r: Vec2)
        requires
            self.in_bounds(),
            all_in_bounds(boids@),
            boids.len() <= MAX_AGENTS,
            cfg.wf(),
        ensures
            r@ == separation(*self, boids@, *cfg),
            bounded(r@, cfg.max_force as int),
            norm2(r@) <= cfg.max_force * cfg.max_force,
    {
        let radius = cfg.separation_radius;
        let ghost term = away_from(*self);
        let mut sum = Vec2::zero();
        let mut count: i64 = 0;
        let mut i: usize = 0;
        while i < boids.len()
            invariant
                i <= boids.len() <= MAX_AGENTS,
                self.in_bounds(),
                all_in_bounds(boids@),
                cfg.wf(),
                radius == cfg.separation_radius,
                term == away_from(*self),
                sum@ == neighbor_sum(*self, boids@.take(i as int), radius as int, term),
                count == neighbor_count(*self, boids@.take(i as int), radius as int),
                0 <= count <= i,
                bounded(sum@, count * UNIT),
            decreases boids.len() - i,
        {
            let other = &boids[i];
            proof {
                lemma_take_step(boids@, i as int);
                assert(boids@[i as int].in_bounds());
            }
            if self.is_neighbor(other, radius) {
                let d = self.position.minus(&other.position);
                let away = d.scale_to(UNIT);
                sum = sum.plus(&away);
                count = count + 1;
            }
            i = i + 1;
        }
        proof {
            assert(boids@.take(boids.len() as int) =~= boids@);
        }
        if count == 0 {
            proof {
                lemma_square_nonneg(cfg.max_force as int);
            }
            return Vec2::zero();
        }
        proof {
            lemma_average_bound(sum.x as int, count as int, UNIT as int);
            lemma_average_bound(sum.y as int, count as int, UNIT as int);
        }
        let avg = Vec2::new(div_toward_zero(sum.x, count), div_toward_zero(sum.y, count));
        self.steer_toward(avg, cfg)
    }

    /// Steering toward the mean velocity of the neighbors within the alignment radius.
    pub fn align(&self, boids: &Vec<Boid>, cfg: &Config) -> (r: Vec2)
        requires
            self.in_bounds(),
            all_in_bounds(boids@),
            boids.len() <= MAX_AGENTS,
            cfg.wf(),
        ensures
            r@ == alignment(*self, boids@, *cfg),
            bounded(r@, cfg.max_force as int),
            norm2(r@) <= cfg.max_force * cfg.max_force,
    {
        let radius = cfg.alignment_radius;
        let ghost term = velocity_of();
        let mut sum = Vec2::zero();
        let mut count: i64 = 0;
        let mut i: usize = 0;
        while i < boids.len()
            invariant
                i <= boids.len() <= MAX_AGENTS,
                self.in_bounds(),
                all_in_bounds(boids@),
                cfg.wf(),
                radius == cfg.alignment_radius,
                term == velocity_of(),
                sum@ == neighbor_sum(*self, boids@.take(i as int), radius as int, term),
                count == neighbor_count(*self, boids@.take(i as int), radius as int),
                0 <= count <= i,
                bounded(sum@, count * SPEED_LIMIT),
            decreases boids.len() - i,
        {
            let other = &boids[i];
            proof {
                lemma_take_step(boids@, i as int);
                assert(boids@[i as int].in_bounds());
            }
            if self.is_neighbor(other, radius) {
                sum = sum.plus(&other.velocity);
                count = count + 1;
            }
            i = i + 1;
        }
        proof {
            assert(boids@.take(boids.len() as int) =~= boids@);
        }
        if count == 0 {
            proof {
                lemma_square_nonneg(cfg.max_force as int);
            }
            return Vec2::zero();
        }
        proof {
            lemma_average_bound(sum.x as int, count as int, SPEED_LIMIT as int);
            lemma_average_bound(sum.y as int, count as int, SPEED_LIMIT as int);
        }
        let avg = Vec2::new(div_toward_zero(sum.x, count), div_toward_zero(sum.y, count));
        self.steer_toward(avg, cfg)
    }

    /// Steering toward the mean position of the neighbors within the cohesion radius.
    pub fn cohesion(&self, boids: &Vec<Boid>, cfg: &Config) -> (r: Vec2)
        requires
            self.in_bounds(),
            all_in_bounds(boids@),
            boids.len() <= MAX_AGENTS,
            cfg.wf(),
        ensures
            r@ == cohesion(*self, boids@, *cfg),
            bounded(r@, cfg.max_force as int),
            norm2(r@) <= cfg.max_force * cfg.max_force,
    {
        let radius = cfg.cohesion_radius;
        let ghost term = position_of();
        let mut sum = Vec2::zero();
        let mut count: i64 = 0;
        let mut i: usize = 0;
        while i < boids.len()
            invariant
                i <= boids.len() <= MAX_AGENTS,
                self.in_bounds(),
                all_in_bounds(boids@),
                cfg.wf(),
                radius == cfg.cohesion_radius,
                term == position_of(),
                sum@ == neighbor_sum(*self, boids@.take(i as int), radius as int, term),
                count == neighbor_count(*self, boids@.take(i as int), radius as int),
                0 <= count <= i,
                bounded(sum@, count * POS_LIMIT),
            decreases boids.len() - i,
        {
            let other = &boids[i];
            proof {
                lemma_take_step(boids@, i as int);
                assert(boids@[i as int].in_bounds());
            }
            if self.is_neighbor(other, radius) {
                sum = sum.plus(&other.position);
                count = count + 1;
            }
            i = i + 1;
        }
        proof {
            assert(boids@.take(boids.len() as int) =~= boids@);
        }
        if count == 0 {
            proof {
                lemma_square_nonneg(cfg.max_force as int);
            }
            return Vec2::zero();
        }
        proof {
            lemma_average_bound(sum.x as int, count as int, POS_LIMIT as int);
            lemma_average_bound(sum.y as int, count as int, POS_LIMIT as int);
        }
        let avg = Vec2::new(div_toward_zero(sum.x, count), div_toward_zero(sum.y, count));
        self.seek(avg, cfg)
    }

    /// Adds `force` to the acceleration.
    pub fn apply_force(&mut self, force: Vec2)
        requires
            bounded(old(self).acceleration@, SUM_LIMIT as int),
            bounded(force@, SUM_LIMIT as int),
        ensures
            final(self).acceleration@ == vadd(old(self).acceleration@, force@),
            final(self).position == old(self).position,
            final(self).velocity == old(self).velocity,
            final(self).radius == old(self).radius,
    {
        self.acceleration = self.acceleration.plus(&force);
    }

    /// Adds the weighted separation, alignment and cohesion forces against
    /// `boids` to the acceleration.
    pub fn flock(&mut self, boids: &Vec<Boid>, cfg: &Config)
        requires
            old(self).in_bounds(),
            bounded(old(self).acceleration@, REST_ACCEL_LIMIT as int),
            all_in_bounds(boids@),
            boids.len() <= MAX_AGENTS,
            cfg.wf(),
        ensures
            final(self).acceleration@ == flock_acceleration(*old(self), boids@, *cfg),
            final(self).position == old(self).position,
            final(self).velocity == old(self).velocity,
            final(self).radius == old(self).radius,
            final(self).in_bounds(),
    {
        let separation = self.separate(boids, cfg);
        let alignment = self.align(boids, cfg);
        let cohesion = self.cohesion(boids, cfg);
        let separation = weigh(separation, cfg.separation_weight);
        let alignment = weigh(alignment, cfg.alignment_weight);
        let cohesion = weigh(cohesion, cfg.cohesion_weight);
        self.apply_force(separation);
        self.apply_force(alignment);
        self.apply_force(cohesion);
    }

    /// Integrates one tick: velocity takes the acceleration and is clamped to
    /// the speed limit, position takes the velocity, acceleration is cleared.
    pub fn update(&mut self, cfg: &Config)
        requires
            old(self).in_bounds(),
            cfg.wf(),
        ensures
            final(self).velocity@ == clamp_length(
                vadd(old(self).velocity@, old(self).acceleration@),
                cfg.max_speed as int,
            ),
            final(self).position@ == vadd(old(self).position@, final(self).velocity@),
            final(self).acceleration@ == (0int, 0int),
            final(self).radius == old(self).radius,
            norm2(final(self).velocity@) <= cfg.max_speed * cfg.max_speed,
            bounded(final(self).velocity@, cfg.max_speed as int),
    {
        let v = self.velocity.plus(&self.acceleration);
        let v = v.clamp_length(cfg.max_speed);
        proof {
            lemma_norm_bounds_components(v@, cfg.max_speed as int);
        }
        self.velocity = v;
        self.position = self.position.plus(&v);
        self.acceleration = Vec2::zero();
    }

    /// Wraps the position into the world: past one edge it jumps to the
    /// opposite edge, on each axis independently.
    pub fn check_borders(&mut self, cfg: &Config)
        requires
            cfg.wf(),
        ensures
            final(self).position@ == wrap_point(old(self).position@, *cfg),
            in_world(final(self).position@, *cfg),
            final(self).velocity == old(self).velocity,
            final(self).acceleration == old(self).acceleration,
            final(self).radius == old(self).radius,
    {
        let half_width = cfg.width / 2;
        let half_height = cfg.height / 2;
        if self.position.x > half_width {
            self.position.x = -half_width;
        } else if self.position.x < -half_width {
            self.position.x = half_width;
        }
        if self.position.y > half_height {
            self.position.y = -half_height;
        } else if self.position.y < -half_height {
            self.position.y = half_height;
        }
    }

    /// One tick against the neighbor candidates `boids`: flock, integrate, wrap.
    pub fn step(&mut self, boids: &Vec<Boid>, cfg: &Config)
        requires
            old(self).in_bounds(),
            bounded(old(self).acceleration@, REST_ACCEL_LIMIT as int),
            all_in_bounds(boids@),
            boids.len() <= MAX_AGENTS,
            cfg.wf(),
        ensures
            final(self).velocity@ == next_velocity(*old(self), boids@, *cfg),
            final(self).position@ == next_position(*old(self), boids@, *cfg),
            final(self).acceleration@ == (0int, 0int),
            final(self).radius == old(self).radius,
            norm2(final(self).velocity@) <= cfg.max_speed * cfg.max_speed,
            in_world(final(self).position@, *cfg),
            final(self).in_bounds(),
    {
        self.flock(boids, cfg);
        self.update(cfg);
        self.check_borders(cfg);
    }
}

proof fn lemma_no_neighbors(me: Boid, s: Seq<Boid>, r: int)
    requires
        forall|k: int| 0 <= k < s.len() ==> !is_neighbor(me, #[trigger] s[k], r),
    ensures
        neighbor_count(me, s, r) == 0,
    decreases s.len(),
{
    if s.len() > 0 {
        let t = s.drop_last();
        assert forall|k: int| 0 <= k < t.len() implies !is_neighbor(me, #[trigger] t[k], r) by {
            assert(t[k] == s[k]);
        }
        lemma_no_neighbors(me, t, r);
        assert(!is_neighbor(me, s[s.len() - 1], r));
    }
}

/// An agent with no other agent within any of the three rule radii feels no
/// steering force, and, starting a tick at rest within the speed limit, keeps
/// its velocity and moves along it in a straight line (wrapped at the edges).
pub proof fn lemma_isolated_agent_coasts(me: Boid, s: Seq<Boid>, cfg: Config)
    requires
        cfg.wf(),
        forall|k: int|
            0 <= k < s.len() ==> {
                &&& !is_neighbor(me, #[trigger] s[k], cfg.separation_radius as int)
                &&& !is_neighbor(me, s[k], cfg.alignment_radius as int)
                &&& !is_neighbor(me, s[k], cfg.cohesion_radius as int)
            },
    ensures
        separation(me, s, cfg) == (0int, 0int),
        alignment(me, s, cfg) == (0int, 0int),
        cohesion(me, s, cfg) == (0int, 0int),
        flock_acceleration(me, s, cfg) == me.acceleration@,
        me.acceleration@ == (0int, 0int) && norm2(me.velocity@) <= cfg.max_speed * cfg.max_speed
            ==> next_velocity(me, s, cfg) == me.velocity@ && next_position(me, s, cfg)
            == wrap_point(vadd(me.position@, me.velocity@), cfg),
{
    lemma_no_neighbors(me, s, cfg.separation_radius as int);
    lemma_no_neighbors(me, s, cfg.alignment_radius as int);
    lemma_no_neighbors(me, s, cfg.cohesion_radius as int);
    assert(weighted((0int, 0int), cfg.separation_weight as int) == (0int, 0int));
    assert(weighted((0int, 0int), cfg.alignment_weight as int) == (0int, 0int));
    assert(weighted((0int, 0int), cfg.cohesion_weight as int) == (0int, 0int));
}

/// Agents whose position lies strictly inside the circle of radius `r` around `p`.
pub open spec fn near(p: (int, int), r: int) -> spec_fn(Boid) -> bool {
    |b: Boid| crate::index::within(b.position@, p, r)
}

proof fn lemma_neighbor_is_near(me: Boid, o: Boid, r: int, big: int)
    requires
        0 <= r <= big,
        is_neighbor(me, o, r),
    ensures
        crate::index::within(o.position@, me.position@, big),
{
    let d = offset(me, o);
    let e = vsub(o.position@, me.position@);
    assert(e.0 * e.0 == d.0 * d.0 && e.1 * e.1 == d.1 * d.1) by (nonlinear_arith)
        requires
            e.0 == -d.0,
            e.1 == -d.1,
    ;
    lemma_square_monotone(r, big);
}

/// Dropping the agents outside a circle at least as wide as `r` around `me`
/// changes neither the neighbor count nor any neighbor sum within `r`.
pub proof fn lemma_far_agents_ignored(
    me: Boid,
    s: Seq<Boid>,
    r: int,
    big: int,
    term: spec_fn(Boid) -> (int, int),
)
    requires
        0 <= r <= big,
    ensures
        neighbor_count(me, s.filter(near(me.position@, big)), r) == neighbor_count(me, s, r),
        neighbor_sum(me, s.filter(near(me.position@, big)), r, term) == neighbor_sum(
            me,
            s,
            r,
            term,
        ),
    decreases s.len(),
{
    reveal(Seq::filter);
    let pred = near(me.position@, big);
    if s.len() > 0 {
        lemma_far_agents_ignored(me, s.drop_last(), r, big, term);
        let l = s.last();
        let f = s.filter(pred);
        let g = s.drop_last().filter(pred);
        if is_neighbor(me, l, r) {
            lemma_neighbor_is_near(me, l, r, big);
        }
        if pred(l) {
            assert(f == g.push(l));
            assert(f.drop_last() =~= g);
            assert(f.last() == l);
        } else {
            assert(f == g);
        }
    }
}

/// Each of the three rules, and so the whole tick, gives the same result
/// against the agents within `big` of `me` as against the whole population,
/// when `big` is at least each rule radius.
pub proof fn lemma_step_ignores_far_agents(me: Boid, s: Seq<Boid>, big: int, cfg: Config)
    requires
        cfg.wf(),
        cfg.separation_radius <= big,
        cfg.alignment_radius <= big,
        cfg.cohesion_radius <= big,
    ensures
        separation(me, s.filter(near(me.position@, big)), cfg) == separation(me, s, cfg),
        alignment(me, s.filter(near(me.position@, big)), cfg) == alignment(me, s, cfg),
        cohesion(me, s.filter(near(me.position@, big)), cfg) == cohesion(me, s, cfg),
        next_velocity(me, s.filter(near(me.position@, big)), cfg) == next_velocity(me, s, cfg),
        next_position(me, s.filter(near(me.position@, big)), cfg) == next_position(me, s, cfg),
{
    let f = s.filter(near(me.position@, big));
    lemma_far_agents_ignored(me, s, cfg.separation_radius as int, big, away_from(me));
    lemma_far_agents_ignored(me, s, cfg.alignment_radius as int, big, velocity_of());
    lemma_far_agents_ignored(me, s, cfg.cohesion_radius as int, big, position_of());
    assert(separation(me, f, cfg) == separation(me, s, cfg));
    assert(alignment(me, f, cfg) == alignment(me, s, cfg));
    assert(cohesion(me, f, cfg) == cohesion(me, s, cfg));
}

} // verus!
