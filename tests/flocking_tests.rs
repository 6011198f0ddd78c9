use rand::SeedableRng;
use flocking::boid::Boid;
use flocking::config::{Config, ConfigError};
use flocking::index::{query_linear, SpatialIndex, Strategy};
use flocking::system::FlockingSystem;
use flocking::config::UNIT;
use flocking::vec2::{ceil_sqrt_u128, div_toward_zero, Vec2};

const W: i64 = 800 * UNIT;
const H: i64 = 800 * UNIT;

fn agent(x: i64, y: i64, vx: i64, vy: i64) -> Boid {
    Boid::new(Vec2::new(x, y), Vec2::new(vx, vy), 8 * UNIT)
}

fn sorted(mut v: Vec<usize>) -> Vec<usize> {
    v.sort();
    v.dedup();
    v
}

#[test]
fn ceil_sqrt_exact_values() {
    assert_eq!(ceil_sqrt_u128(0), 0);
    assert_eq!(ceil_sqrt_u128(1), 1);
    assert_eq!(ceil_sqrt_u128(2), 2);
    assert_eq!(ceil_sqrt_u128(16), 4);
    assert_eq!(ceil_sqrt_u128(17), 5);
    assert_eq!(ceil_sqrt_u128(1 << 62), 1 << 31);
    assert_eq!(ceil_sqrt_u128(1 << 82), 1 << 41);
    assert_eq!(ceil_sqrt_u128(500_000_000_000), 707_107);
}

#[test]
fn division_rounds_toward_zero() {
    assert_eq!(div_toward_zero(7, 2), 3);
    assert_eq!(div_toward_zero(-7, 2), -3);
    assert_eq!(div_toward_zero(0, 5), 0);
}

#[test]
fn scale_and_clamp() {
    assert_eq!(Vec2::new(3, 4).scale_to(10), Vec2::new(6, 8));
    assert_eq!(Vec2::new(-3, 4).scale_to(10), Vec2::new(-6, 8));
    assert_eq!(Vec2::new(30, 40).clamp_length(5), Vec2::new(3, 4));
    assert_eq!(Vec2::new(3, 4).clamp_length(5), Vec2::new(3, 4));
    assert_eq!(Vec2::new(1, 1).scale_to(1000), Vec2::new(500, 500));
}

#[test]
fn config_errors() {
    let ok = Config::loose(W, H);
    assert_eq!(ok.validated(), Ok(ok));
    assert_eq!(Config::tight(W, H).validated(), Ok(Config::tight(W, H)));
    let mut c = ok;
    c.max_speed = 0;
    assert_eq!(c.validated(), Err(ConfigError::NonPositiveSpeed));
    let mut c = ok;
    c.max_force = -1;
    assert_eq!(c.validated(), Err(ConfigError::NegativeForce));
    let mut c = ok;
    c.cohesion_radius = -5;
    assert_eq!(c.validated(), Err(ConfigError::NegativeRadius));
    let mut c = ok;
    c.alignment_weight = -5;
    assert_eq!(c.validated(), Err(ConfigError::NegativeWeight));
    let mut c = ok;
    c.width = 0;
    assert_eq!(c.validated(), Err(ConfigError::EmptyWorld));
    let mut c = ok;
    c.max_speed = 1 << 40;
    assert_eq!(c.validated(), Err(ConfigError::OutOfRange));
    assert!(matches!(
        FlockingSystem::new(c, 3, Some(1), Strategy::Linear),
        Err(ConfigError::OutOfRange)
    ));
}

#[test]
fn population_errors() {
    let cfg = Config::loose(W, H);
    assert!(matches!(
        FlockingSystem::new(cfg, (1 << 20) + 1, Some(1), Strategy::Linear),
        Err(ConfigError::TooManyAgents)
    ));
    let far = agent(1 << 40, 0, 0, 0);
    assert!(matches!(
        FlockingSystem::from_boids(cfg, vec![far], Strategy::Linear),
        Err(ConfigError::AgentOutOfRange)
    ));
}

#[test]
fn pair_repels_along_x() {
    let cfg = Config::loose(W, H);
    let a = agent(0, 0, UNIT, 0);
    let b = agent(10 * UNIT, 0, -UNIT, 0);
    let all = vec![a, b];
    let fa = a.separate(&all, &cfg);
    let fb = b.separate(&all, &cfg);
    assert_eq!(fa, Vec2::new(-30_000, 0));
    assert_eq!(fb, Vec2::new(30_000, 0));
    assert_eq!(a.align(&all, &cfg), Vec2::new(-30_000, 0));
    assert_eq!(a.cohesion(&all, &cfg), Vec2::new(30_000, 0));
    let mut sys = FlockingSystem::from_boids(cfg, all, Strategy::Linear).unwrap();
    sys.update();
    let after = sys.boids();
    // acceleration -1.9 * 0.03 - 0.03 + 0.03 = -0.057 on x
    assert_eq!(after[0].position, Vec2::new(943_000, 0));
    assert_eq!(after[1].position, Vec2::new(10 * UNIT - 943_000, 0));
    assert!(after[0].position.x < UNIT);
    assert!(after[1].position.x > 9 * UNIT);
}

#[test]
fn agent_past_right_edge_wraps_left() {
    let cfg = Config::loose(W, H);
    let a = agent(W / 2 + UNIT, 0, 0, 0);
    let mut sys = FlockingSystem::from_boids(cfg, vec![a], Strategy::KdTree).unwrap();
    sys.update();
    assert_eq!(sys.boids()[0].position.x, -W / 2);
    assert_eq!(sys.boids()[0].position.y, 0);
}

#[test]
fn isolated_agent_moves_straight() {
    let cfg = Config::tight(W, H);
    let a = agent(0, 0, 1_500_000, -700_000);
    let b = agent(200 * UNIT, 200 * UNIT, 0, 0);
    let mut sys = FlockingSystem::from_boids(cfg, vec![a, b], Strategy::Linear).unwrap();
    for t in 1..=5 {
        sys.update();
        assert_eq!(sys.boids()[0].position, Vec2::new(1_500_000 * t, -700_000 * t));
        assert_eq!(sys.boids()[0].velocity, Vec2::new(1_500_000, -700_000));
    }
    let all = vec![a, b];
    assert_eq!(a.separate(&all, &cfg), Vec2::zero());
    assert_eq!(a.align(&all, &cfg), Vec2::zero());
    assert_eq!(a.cohesion(&all, &cfg), Vec2::zero());
}

#[test]
fn seek_coincident_target_is_zero() {
    let cfg = Config::loose(W, H);
    let a = agent(5 * UNIT, 5 * UNIT, 100_000, 100_000);
    assert_eq!(a.seek(Vec2::new(5 * UNIT, 5 * UNIT), &cfg), Vec2::zero());
    // desired (2_700_000, -100_000) has rounded-up length 2_701_852
    assert_eq!(a.seek(Vec2::new(10 * UNIT, 5 * UNIT), &cfg), Vec2::new(29_979, -1_110));
}

fn points(n: usize, seed: i64) -> Vec<Vec2> {
    let mut s = seed;
    let mut v = Vec::new();
    for _ in 0..n {
        s = (s * 1_103_515_245 + 12_345) % 2_147_483_648;
        let x = s % 200_001 - 100_000;
        s = (s * 1_103_515_245 + 12_345) % 2_147_483_648;
        let y = s % 200_001 - 100_000;
        v.push(Vec2::new(x, y));
    }
    v
}

#[test]
fn kd_tree_and_linear_scan_agree() {
    for (n, seed) in [(0usize, 1i64), (1, 2), (2, 3), (50, 4), (300, 5)] {
        let pts = points(n, seed);
        let linear = SpatialIndex::build(pts.clone(), Strategy::Linear);
        let kd = SpatialIndex::build(pts.clone(), Strategy::KdTree);
        for c in [Vec2::new(0, 0), Vec2::new(50_000, -20_000), Vec2::new(-99_000, 99_000)] {
            for r in [0i64, 1, 10_000, 50_000, 300_000] {
                let a = sorted(linear.query(c, r));
                let b = sorted(kd.query(c, r));
                assert_eq!(a, b);
                assert_eq!(a, query_linear(&pts, c, r));
            }
        }
    }
}

#[test]
fn kd_tree_coincident_points() {
    let pts = vec![Vec2::new(5, 5); 4];
    let kd = SpatialIndex::build(pts.clone(), Strategy::KdTree);
    assert_eq!(sorted(kd.query(Vec2::new(5, 5), 1)), vec![0, 1, 2, 3]);
    assert_eq!(sorted(kd.query(Vec2::new(5, 5), 0)), Vec::<usize>::new());
    assert_eq!(sorted(kd.query(Vec2::new(100, 5), 96)), vec![0, 1, 2, 3]);
    assert_eq!(sorted(kd.query(Vec2::new(100, 5), 95)), Vec::<usize>::new());
}

#[test]
fn seeded_runs_are_identical() {
    for strategy in [Strategy::Linear, Strategy::KdTree] {
        let cfg = Config::tight(W, H);
        let mut a = FlockingSystem::new(cfg, 120, Some(7), strategy).unwrap();
        let mut b = FlockingSystem::new(cfg, 120, Some(7), strategy).unwrap();
        assert_eq!(a.boids(), b.boids());
        for _ in 0..20 {
            a.update();
            b.update();
        }
        assert_eq!(a.boids(), b.boids());
    }
}

#[test]
fn strategies_give_the_same_flock() {
    let cfg = Config::loose(W, H);
    let mut a = FlockingSystem::new(cfg, 150, Some(3), Strategy::Linear).unwrap();
    let start = a.boids().clone();
    let mut b = FlockingSystem::from_boids(cfg, start, Strategy::KdTree).unwrap();
    for _ in 0..10 {
        a.update();
        b.update();
    }
    assert_eq!(a.boids(), b.boids());
}

#[test]
fn speed_and_world_bounds_hold() {
    let cfg = Config::tight(W, H);
    let mut sys = FlockingSystem::new(cfg, 200, Some(11), Strategy::KdTree).unwrap();
    for b in sys.boids() {
        assert!(b.position.x.abs() <= W / 2 && b.position.y.abs() <= H / 2);
        assert!(b.velocity.x >= -2_800_000 && b.velocity.x < 2_800_000);
        assert_eq!(b.radius, 8 * UNIT);
    }
    for _ in 0..30 {
        sys.update();
        for b in sys.boids() {
            let v = &b.velocity;
            assert!(v.x * v.x + v.y * v.y <= 2_800_000 * 2_800_000);
            assert!(b.position.x.abs() <= W / 2 && b.position.y.abs() <= H / 2);
            assert_eq!(b.acceleration, Vec2::zero());
        }
    }
}

#[test]
fn empty_population_ticks() {
    let cfg = Config::loose(W, H);
    let mut sys = FlockingSystem::new(cfg, 0, None, Strategy::KdTree).unwrap();
    sys.update();
    assert!(sys.boids().is_empty());
}

#[test]
fn apply_force_accumulates() {
    let mut a = agent(0, 0, 0, 0);
    a.apply_force(Vec2::new(3, -4));
    a.apply_force(Vec2::new(1, 1));
    assert_eq!(a.acceleration, Vec2::new(4, -3));
    let cfg = Config::loose(W, H);
    a.update(&cfg);
    assert_eq!(a.velocity, Vec2::new(4, -3));
    assert_eq!(a.position, Vec2::new(4, -3));
    assert_eq!(a.acceleration, Vec2::zero());
}

#[test]
fn rand_new_places_agents_inside_world() {
    let cfg = Config::tight(W, H);
    let mut rng = rand::rngs::StdRng::seed_from_u64(5);
    let mut xs = Vec::new();
    for _ in 0..100 {
        let b = Boid::rand_new(&cfg, &mut rng);
        assert!(b.position.x.abs() <= W / 2 && b.position.y.abs() <= H / 2);
        assert!(b.velocity.x >= -2_800_000 && b.velocity.x < 2_800_000);
        assert!(b.velocity.y >= -2_800_000 && b.velocity.y < 2_800_000);
        assert_eq!(b.acceleration, Vec2::zero());
        xs.push(b.position.x);
    }
    xs.sort();
    xs.dedup();
    assert!(xs.len() > 50);
}

#[test]
fn separation_from_two_perpendicular_neighbors() {
    let cfg = Config::tight(W, H);
    let me = agent(0, 0, 0, 0);
    let all = vec![me, agent(10 * UNIT, 0, 0, 0), agent(0, 10 * UNIT, 0, 0)];
    // 0.03 / sqrt(2) = 0.0212132 units
    assert_eq!(me.separate(&all, &cfg), Vec2::new(-21_213, -21_213));
}

#[test]
fn index_reports_strategy_results_in_order() {
    let pts = vec![Vec2::new(3, 0), Vec2::new(0, 0), Vec2::new(3, 0), Vec2::new(50, 50)];
    let kd = SpatialIndex::build(pts.clone(), Strategy::KdTree);
    let linear = SpatialIndex::build(pts, Strategy::Linear);
    assert_eq!(kd.query(Vec2::new(1, 0), 5), vec![0, 1, 2]);
    assert_eq!(linear.query(Vec2::new(1, 0), 5), vec![0, 1, 2]);
}
