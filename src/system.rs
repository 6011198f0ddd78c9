use crate::boid::{
    all_in_bounds, in_world, is_neighbor, lemma_isolated_agent_coasts,
    lemma_step_ignores_far_agents, near, next_position, next_velocity, stepped, wrap_point, Boid,
    AGENT_RADIUS, MAX_AGENTS, POS_LIMIT, REST_ACCEL_LIMIT,
};
use crate::config::{Config, ConfigError};
use crate::index::{SpatialIndex, Strategy};
use crate::vec2::{bounded, norm2, vadd, Vec2};
use crate::random::{rng_from_entropy, rng_from_seed};
use vstd::prelude::*;

verus! {

/// The agent population of a simulation and the rules it follows.
pub struct FlockingSystem {
    config: Config,
    boids: Vec<Boid>,
    strategy: Strategy,
}

/// An agent in a state from which a tick may start.
pub open spec fn at_rest(b: Boid) -> bool {
    b.in_bounds() && bounded(b.acceleration@, REST_ACCEL_LIMIT as int)
}

/// Largest of the three rule radii.
pub open spec fn query_radius(cfg: Config) -> i64 {
    let r = if cfg.separation_radius >= cfg.alignment_radius {
        cfg.separation_radius
    } else {
        cfg.alignment_radius
    };
    if r >= cfg.cohesion_radius {
        r
    } else {
        cfg.cohesion_radius
    }
}

/// The whole population after one tick in which every agent flocks against
/// the whole population as it was before the tick.
pub open spec fn tick(agents: Seq<Boid>, cfg: Config) -> Seq<Boid> {
    Seq::new(agents.len(), |i: int| stepped(agents[i], agents, cfg))
}

/// The population after `k` ticks.
pub open spec fn run(agents: Seq<Boid>, cfg: Config, k: nat) -> Seq<Boid>
    decreases k,
{
    if k == 0 {
        agents
    } else {
        tick(run(agents, cfg, (k - 1) as nat), cfg)
    }
}

/// No other agent of `s` is within any rule radius of agent `i`.
pub open spec fn isolated(s: Seq<Boid>, i: int, cfg: Config) -> bool {
    forall|m: int|
        0 <= m < s.len() ==> {
            &&& !is_neighbor(s[i], #[trigger] s[m], cfg.separation_radius as int)
            &&& !is_neighbor(s[i], s[m], cfg.alignment_radius as int)
            &&& !is_neighbor(s[i], s[m], cfg.cohesion_radius as int)
        }
}

/// Where an agent at `a.position` moving by `a.velocity` each tick stands after `j` ticks.
pub open spec fn straight_path(a: Boid, j: int) -> (int, int) {
    (a.position.x + j * a.velocity.x, a.position.y + j * a.velocity.y)
}

/// An agent that starts at rest within the speed limit, and stays isolated
/// from every other agent for `k` ticks while its straight path stays in the
/// world, keeps its velocity `v` and after `k` ticks stands at `p + k * v`.
pub proof fn lemma_isolated_agent_runs_straight(agents: Seq<Boid>, cfg: Config, i: int, k: nat)
    requires
        cfg.wf(),
        0 <= i < agents.len(),
        agents[i].acceleration@ == (0int, 0int),
        norm2(agents[i].velocity@) <= cfg.max_speed * cfg.max_speed,
        forall|j: nat| j < k ==> isolated(#[trigger] run(agents, cfg, j), i, cfg),
        forall|j: int| 0 <= j <= k ==> in_world(#[trigger] straight_path(agents[i], j), cfg),
    ensures
        run(agents, cfg, k).len() == agents.len(),
        run(agents, cfg, k)[i].velocity == agents[i].velocity,
        run(agents, cfg, k)[i].acceleration@ == (0int, 0int),
        run(agents, cfg, k)[i].position@ == straight_path(agents[i], k as int),
    decreases k,
{
    let a = agents[i];
    if k == 0 {
        assert(a.position@ == straight_path(a, 0));
    } else {
        let k1 = (k - 1) as nat;
        assert forall|j: nat| j < k1 implies isolated(#[trigger] run(agents, cfg, j), i, cfg) by {
            assert(isolated(run(agents, cfg, j), i, cfg));
        }
        lemma_isolated_agent_runs_straight(agents, cfg, i, k1);
        let s = run(agents, cfg, k1);
        let me = s[i];
        assert(isolated(s, i, cfg));
        assert forall|m: int|
            0 <= m < s.len() implies {
                &&& !is_neighbor(me, #[trigger] s[m], cfg.separation_radius as int)
                &&& !is_neighbor(me, s[m], cfg.alignment_radius as int)
                &&& !is_neighbor(me, s[m], cfg.cohesion_radius as int)
            } by {}
        lemma_isolated_agent_coasts(me, s, cfg);
        let p = straight_path(a, k as int);
        assert(in_world(straight_path(a, k as int), cfg));
        assert(k1 * a.velocity.x + a.velocity.x == k * a.velocity.x) by (nonlinear_arith)
            requires
                k1 + 1 == k,
        ;
        assert(k1 * a.velocity.y + a.velocity.y == k * a.velocity.y) by (nonlinear_arith)
            requires
                k1 + 1 == k,
        ;
        assert(vadd(me.position@, me.velocity@) == p);
        assert(wrap_point(p, cfg) == p);
        assert(run(agents, cfg, k) == tick(s, cfg));
        assert(run(agents, cfg, k)[i] == stepped(me, s, cfg));
    }
}

impl FlockingSystem {
    pub closed spec fn config(&self) -> Config {
        self.config
    }

    pub closed spec fn agents(&self) -> Seq<Boid> {
        self.boids@
    }

    pub closed spec fn strategy(&self) -> Strategy {
        self.strategy
    }

    pub open spec fn wf(&self) -> bool {
        &&& self.config().wf()
        &&& self.agents().len() <= MAX_AGENTS
        &&& forall|i: int| 0 <= i < self.agents().len() ==> at_rest(#[trigger] self.agents()[i])
    }

    /// A population of `boids`, if the configuration is accepted and every
    /// agent lies in the supported ranges.
    pub fn from_boids(config: Config, boids: Vec<Boid>, strategy: Strategy) -> (r: Result<
        FlockingSystem,
        ConfigError,
    >)
        ensures
            r is Ok <==> (config.wf() && boids.len() <= MAX_AGENTS && forall|i: int|
                0 <= i < boids.len() ==> at_rest(#[trigger] boids@[i])),
            !config.wf() ==> r == Err::<FlockingSystem, ConfigError>(config.first_error().unwrap()),
            config.wf() && boids.len() > MAX_AGENTS ==> r == Err::<FlockingSystem, ConfigError>(
                ConfigError::TooManyAgents,
            ),
            config.wf() && boids.len() <= MAX_AGENTS && !(forall|i: int|
                0 <= i < boids.len() ==> at_rest(#[trigger] boids@[i])) ==> r == Err::<
                FlockingSystem,
                ConfigError,
            >(ConfigError::AgentOutOfRange),
            r matches Ok(s) ==> s.wf() && s.config() == config && s.agents() == boids@
                && s.strategy() == strategy,
    {
        if let Err(e) = config.validated() {
            return Err(e);
        }
        if boids.len() > MAX_AGENTS {
            return Err(ConfigError::TooManyAgents);
        }
        let mut i: usize = 0;
        while i < boids.len()
            invariant
                i <= boids.len() <= MAX_AGENTS,
                config.wf(),
                forall|k: int| 0 <= k < i ==> at_rest(#[trigger] boids@[k]),
            decreases boids.len() - i,
        {
            if !boid_at_rest(&boids[i]) {
                return Err(ConfigError::AgentOutOfRange);
            }
            i = i + 1;
        }
        Ok(FlockingSystem { config, boids, strategy })
    }

    /// `population` agents placed uniformly in the world, each with a velocity
    /// drawn from `[-max_speed, max_speed)` per axis; the generator is seeded
    /// by `seed` when one is given.
    pub fn new(config: Config, population: usize, seed: Option<u64>, strategy: Strategy) -> (r:
        Result<FlockingSystem, ConfigError>)
        ensures
            r is Ok <==> (config.wf() && population <= MAX_AGENTS),
            !config.wf() ==> r == Err::<FlockingSystem, ConfigError>(config.first_error().unwrap()),
            config.wf() && population > MAX_AGENTS ==> r == Err::<FlockingSystem, ConfigError>(
                ConfigError::TooManyAgents,
            ),
            r matches Ok(s) ==> {
                &&& s.wf()
                &&& s.config() == config
                &&& s.strategy() == strategy
                &&& s.agents().len() == population
                &&& forall|i: int|
                    0 <= i < population ==> {
                        let b = #[trigger] s.agents()[i];
                        &&& in_world(b.position@, config)
                        &&& -config.max_speed <= b.velocity.x < config.max_speed
                        &&& -config.max_speed <= b.velocity.y < config.max_speed
                        &&& b.acceleration@ == (0int, 0int)
                        &&& b.radius == AGENT_RADIUS
                    }
            },
    {
        if let Err(e) = config.validated() {
            return Err(e);
        }
        if population > MAX_AGENTS {
            return Err(ConfigError::TooManyAgents);
        }
        let mut rng = match seed {
            Some(s) => rng_from_seed(s),
            None => rng_from_entropy(),
        };
        let mut boids: Vec<Boid> = Vec::new();
        let mut i: usize = 0;
        while i < population
            invariant
                i <= population <= MAX_AGENTS,
                config.wf(),
                boids.len() == i,
                forall|k: int|
                    0 <= k < i ==> {
                        let b = #[trigger] boids@[k];
                        &&& in_world(b.position@, config)
                        &&& -config.max_speed <= b.velocity.x < config.max_speed
                        &&& -config.max_speed <= b.velocity.y < config.max_speed
                        &&& b.acceleration@ == (0int, 0int)
                        &&& b.radius == AGENT_RADIUS
                        &&& at_rest(b)
                    },
            decreases population - i,
        {
            boids.push(Boid::rand_new(&config, &mut rng));
            i = i + 1;
        }
        Ok(FlockingSystem { config, boids, strategy })
    }

    /// Advances the simulation by one tick. Every agent flocks against the
    /// same snapshot of the population taken before the tick, then integrates
    /// and wraps. Under the linear strategy each agent's neighbor candidates
    /// are the whole snapshot; under the k-d tree strategy they are the agents
    /// the tree finds within the largest rule radius, in snapshot order. Both
    /// strategies give the same next population, fixed by the snapshot and the
    /// configuration alone.
    pub fn update(&mut self)
        requires
            old(self).wf(),
        ensures
            final(self).wf(),
            final(self).config() == old(self).config(),
            final(self).strategy() == old(self).strategy(),
            final(self).agents().len() == old(self).agents().len(),
            forall|i: int|
                0 <= i < final(self).agents().len() ==> {
                    let b = #[trigger] final(self).agents()[i];
                    let cfg = old(self).config();
                    &&& norm2(b.velocity@) <= cfg.max_speed * cfg.max_speed
                    &&& in_world(b.position@, cfg)
                    &&& b.acceleration@ == (0int, 0int)
                    &&& b.radius == old(self).agents()[i].radius
                },
            final(self).agents() == tick(old(self).agents(), old(self).config()),
    {
        let cfg = self.config;
        let n = self.boids.len();
        let mut snapshot: Vec<Boid> = Vec::new();
        let mut positions: Vec<Vec2> = Vec::new();
        let mut i: usize = 0;
        while i < n
            invariant
                i <= n == self.boids.len(),
                snapshot@ == self.boids@.take(i as int),
                positions.len() == i,
                forall|k: int| 0 <= k < i ==> #[trigger] positions@[k] == self.boids@[k].position,
            decreases n - i,
        {
            snapshot.push(self.boids[i]);
            positions.push(self.boids[i].position);
            i = i + 1;
            proof {
                assert(snapshot@ =~= self.boids@.take(i as int));
            }
        }
        proof {
            assert(snapshot@ =~= self.boids@);
            assert forall|k: int| 0 <= k < n implies at_rest(#[trigger] snapshot@[k]) by {
                assert(at_rest(self.boids@[k]));
            }
            assert forall|k: int| 0 <= k < positions.len() implies bounded(
                #[trigger] positions@[k]@,
                POS_LIMIT as int,
            ) by {
                assert(at_rest(self.boids@[k]));
            }
            assert(all_in_bounds(snapshot@)) by {
                assert forall|k: int| 0 <= k < snapshot.len() implies #[trigger] snapshot@[k].in_bounds() by {
                    assert(at_rest(self.boids@[k]));
                }
            }
        }
        let index = SpatialIndex::build(positions, self.strategy);
        let radius = largest_radius(&cfg);
        let mut i: usize = 0;
        while i < n
            invariant
                i <= n == self.boids.len() == snapshot.len() <= MAX_AGENTS,
                cfg == old(self).config(),
                self.config == cfg,
                self.strategy == old(self).strategy(),
                cfg.wf(),
                snapshot@ == old(self).agents(),
                all_in_bounds(snapshot@),
                forall|k: int| 0 <= k < n ==> at_rest(#[trigger] snapshot@[k]),
                forall|k: int| 0 <= k < n ==> #[trigger] index.points()[k] == snapshot@[k].position,
                index.points().len() == n,
                index.wf(),
                radius == query_radius(cfg),
                0 <= radius <= crate::config::RADIUS_LIMIT,
                forall|k: int| i <= k < n ==> #[trigger] self.boids@[k] == snapshot@[k],
                forall|k: int|
                    0 <= k < i ==> {
                        let b = #[trigger] self.boids@[k];
                        &&& norm2(b.velocity@) <= cfg.max_speed * cfg.max_speed
                        &&& in_world(b.position@, cfg)
                        &&& b.acceleration@ == (0int, 0int)
                        &&& b.radius == snapshot@[k].radius
                        &&& at_rest(b)
                    },
                forall|k: int|
                    0 <= k < i ==> {
                        let b = #[trigger] self.boids@[k];
                        &&& b.velocity@ == next_velocity(snapshot@[k], snapshot@, cfg)
                        &&& b.position@ == next_position(snapshot@[k], snapshot@, cfg)
                    },
            decreases n - i,
        {
            let mut b = snapshot[i];
            proof {
                assert(at_rest(snapshot@[i as int]));
            }
            match self.strategy {
                Strategy::Linear => {
                    b.step(&snapshot, &cfg);
                },
                Strategy::KdTree => {
                    let near_ids = index.query(b.position, radius);
                    let cands = gather(&snapshot, &near_ids);
                    proof {
                        let all = snapshot@;
                        let p = all[i as int].position@;
                        let pred = near(p, radius as int);
                        assert forall|j: usize|
                            near_ids@.contains(j) <==> (j < all.len() && pred(all[j as int])) by {
                            if j < all.len() {
                                assert(index.points()[j as int] == all[j as int].position);
                            }
                        }
                        lemma_gathered_is_filter(all, near_ids@, pred);
                        all.lemma_filter_len(pred);
                        assert(cands@ =~= Seq::new(
                            near_ids.len() as nat,
                            |k: int| all[near_ids@[k] as int],
                        ));
                        lemma_step_ignores_far_agents(all[i as int], all, radius as int, cfg);
                        assert(all_in_bounds(cands@)) by {
                            assert forall|k: int| 0 <= k < cands.len() implies #[trigger] cands@[k].in_bounds() by {
                                assert(all[near_ids@[k] as int] == cands@[k]);
                            }
                        }
                    }
                    b.step(&cands, &cfg);
                },
            }
            proof {
                crate::vec2::lemma_square_monotone(cfg.max_speed as int, crate::config::SPEED_LIMIT as int);
            }
            self.boids.set(i, b);
            i = i + 1;
        }
        proof {
            {
                assert forall|k: int| 0 <= k < n implies #[trigger] self.boids@[k] == tick(
                    snapshot@,
                    cfg,
                )[k] by {
                    let b = self.boids@[k];
                    assert(b.velocity == Vec2 {
                        x: next_velocity(snapshot@[k], snapshot@, cfg).0 as i64,
                        y: next_velocity(snapshot@[k], snapshot@, cfg).1 as i64,
                    });
                    assert(b.position == Vec2 {
                        x: next_position(snapshot@[k], snapshot@, cfg).0 as i64,
                        y: next_position(snapshot@[k], snapshot@, cfg).1 as i64,
                    });
                    assert(b.acceleration == Vec2 { x: 0, y: 0 });
                }
                assert(self.boids@ =~= tick(snapshot@, cfg));
            }
        }
    }

    /// The agents, for drawing.
    pub fn boids(&self) -> (r: &Vec<Boid>)
        ensures
            r@ == self.agents(),
    {
        &self.boids
    }

    pub fn config_of(&self) -> (r: Config)
        ensures
            r == self.config(),
    {
        self.config
    }
}

/// Largest of the three rule radii.
pub fn largest_radius(cfg: &Config) -> (r: i64)
    ensures
        r == query_radius(*cfg),
{
    let r = if cfg.separation_radius >= cfg.alignment_radius {
        cfg.separation_radius
    } else {
        cfg.alignment_radius
    };
    if r >= cfg.cohesion_radius {
        r
    } else {
        cfg.cohesion_radius
    }
}

/// The agents of `all` at the indices `ids`, in the order of `ids`.
pub fn gather(all: &Vec<Boid>, ids: &Vec<usize>) -> (r: Vec<Boid>)
    requires
        forall|k: int| 0 <= k < ids.len() ==> ids[k] < all.len(),
    ensures
        r.len() == ids.len(),
        forall|k: int| 0 <= k < ids.len() ==> #[trigger] r@[k] == all@[ids[k] as int],
{
    let mut r: Vec<Boid> = Vec::new();
    let mut k: usize = 0;
    while k < ids.len()
        invariant
            k <= ids.len(),
            r.len() == k,
            forall|q: int| 0 <= q < ids.len() ==> ids[q] < all.len(),
            forall|q: int| 0 <= q < k ==> #[trigger] r@[q] == all@[ids[q] as int],
        decreases ids.len() - k,
    {
        r.push(all[ids[k]]);
        k = k + 1;
    }
    r
}

/// Gathering, in increasing index order, the agents whose indices are
/// exactly those that satisfy `pred` gives the agents that satisfy `pred`.
proof fn lemma_gathered_is_filter(all: Seq<Boid>, ids: Seq<usize>, pred: spec_fn(Boid) -> bool)
    requires
        all.len() <= usize::MAX,
        forall|a: int, b: int| 0 <= a < b < ids.len() ==> ids[a] < ids[b],
        forall|j: usize| ids.contains(j) <==> (j < all.len() && pred(all[j as int])),
    ensures
        Seq::new(ids.len() as nat, |k: int| all[ids[k] as int]) == all.filter(pred),
    decreases all.len(),
{
    reveal(Seq::filter);
    if ids.len() > 0 {
        assert(ids.contains(ids[0]));
    }
    if all.len() > 0 {
        let n = (all.len() - 1) as usize;
        let t = all.drop_last();
        assert forall|k: int| 0 <= k < ids.len() implies ids[k] <= n by {
            assert(ids.contains(ids[k]));
            assert(ids[k] < all.len());
        }
        if pred(all[n as int]) {
            assert(ids.contains(n));
            let m = ids.len() - 1;
            let k0 = choose|k: int| 0 <= k < ids.len() && ids[k] == n;
            if k0 < m {
                assert(ids[k0] < ids[m]);
            }
            assert(ids[m] == n);
            let ids2 = ids.drop_last();
            assert forall|j: usize| ids2.contains(j) <==> (j < t.len() && pred(t[j as int])) by {
                if ids2.contains(j) {
                    let q = choose|q: int| 0 <= q < ids2.len() && ids2[q] == j;
                    assert(ids[q] < ids[m]);
                    assert(ids.contains(j));
                }
                if j < t.len() && pred(t[j as int]) {
                    assert(t[j as int] == all[j as int]);
                    assert(ids.contains(j));
                    let q = choose|q: int| 0 <= q < ids.len() && ids[q] == j;
                    assert(q != m);
                    assert(ids2[q] == j);
                }
            }
            lemma_gathered_is_filter(t, ids2, pred);
            assert(Seq::new(ids.len() as nat, |k: int| all[ids[k] as int]) =~= Seq::new(
                ids2.len() as nat,
                |k: int| t[ids2[k] as int],
            ).push(all[n as int]));
        } else {
            assert forall|k: int| 0 <= k < ids.len() implies ids[k] < n by {
                assert(ids.contains(ids[k]));
            }
            assert forall|j: usize| ids.contains(j) <==> (j < t.len() && pred(t[j as int])) by {
                if ids.contains(j) {
                    let q = choose|q: int| 0 <= q < ids.len() && ids[q] == j;
                    assert(j < n);
                    assert(t[j as int] == all[j as int]);
                }
                if j < t.len() && pred(t[j as int]) {
                    assert(t[j as int] == all[j as int]);
                }
            }
            lemma_gathered_is_filter(t, ids, pred);
            assert(Seq::new(ids.len() as nat, |k: int| all[ids[k] as int]) =~= Seq::new(
                ids.len() as nat,
                |k: int| t[ids[k] as int],
            ));
        }
    }
}

/// Whether `b` lies in the ranges from which a tick may start.
pub fn boid_at_rest(b: &Boid) -> (r: bool)
    ensures
        r == at_rest(*b),
{
    within_limit(&b.position, POS_LIMIT) && within_limit(&b.velocity, crate::config::SPEED_LIMIT)
        && within_limit(&b.acceleration, REST_ACCEL_LIMIT)
}

fn within_limit(v: &Vec2, m: i64) -> (r: bool)
    requires
        m >= 0,
    ensures
        r == bounded(v@, m as int),
{
    -m <= v.x && v.x <= m && -m <= v.y && v.y <= m
}

} // verus!
