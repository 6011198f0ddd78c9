use vstd::prelude::*;

verus! {

/// Largest speed or steering force a configuration may ask for.
pub const SPEED_LIMIT: i64 = 0x4000_0000;

/// Largest neighbor radius a configuration may ask for.
pub const RADIUS_LIMIT: i64 = 0x10_0000_0000;

/// Largest rule weight, in thousandths.
pub const WEIGHT_LIMIT: i64 = 10_000;

/// Largest world width or height.
pub const WORLD_LIMIT: i64 = 0x10_0000_0000;

/// One world unit in the fixed-point scale of all lengths.
pub const UNIT: i64 = 1_000_000;

/// The tunable constants of a simulation.
///
/// Lengths and speeds are in millionths of a world unit; the three weights
/// are in thousandths, so `1000` weighs a rule once.
///
/// Besides the rejections a simulation needs (a positive speed, no negative
/// force, radius or weight), the accepted ranges are set by what 64-bit
/// arithmetic can hold: speeds and forces up to `SPEED_LIMIT`, radii up to
/// `RADIUS_LIMIT`, weights up to ten (`WEIGHT_LIMIT`), and a world at least
/// two steps and at most `WORLD_LIMIT` wide and high.
#[derive(Clone, Copy, Debug, PartialEq, Eq, Structural)]
pub struct Config {
    pub max_force: i64,
    pub max_speed: i64,
    pub separation_radius: i64,
    pub alignment_radius: i64,
    pub cohesion_radius: i64,
    pub separation_weight: i64,
    pub alignment_weight: i64,
    pub cohesion_weight: i64,
    pub width: i64,
    pub height: i64,
}

/// Why a configuration was rejected.
#[derive(Clone, Copy, Debug, PartialEq, Eq, Structural)]
pub enum ConfigError {
    NonPositiveSpeed,
    NegativeForce,
    NegativeRadius,
    NegativeWeight,
    EmptyWorld,
    OutOfRange,
    TooManyAgents,
    AgentOutOfRange,
}

impl Config {
    /// The configuration is one the simulation accepts.
    pub open spec fn wf(&self) -> bool {
        &&& 0 < self.max_speed <= SPEED_LIMIT
        &&& 0 <= self.max_force <= SPEED_LIMIT
        &&& 0 <= self.separation_radius <= RADIUS_LIMIT
        &&& 0 <= self.alignment_radius <= RADIUS_LIMIT
        &&& 0 <= self.cohesion_radius <= RADIUS_LIMIT
        &&& 0 <= self.separation_weight <= WEIGHT_LIMIT
        &&& 0 <= self.alignment_weight <= WEIGHT_LIMIT
        &&& 0 <= self.cohesion_weight <= WEIGHT_LIMIT
        &&& 2 <= self.width <= WORLD_LIMIT
        &&& 2 <= self.height <= WORLD_LIMIT
    }

    /// The error that `validated` gives, if any, in the order the checks run.
    pub open spec fn first_error(&self) -> Option<ConfigError> {
        if self.max_speed <= 0 {
            Some(ConfigError::NonPositiveSpeed)
        } else if self.max_force < 0 {
            Some(ConfigError::NegativeForce)
        } else if self.separation_radius < 0 || self.alignment_radius < 0 || self.cohesion_radius
            < 0 {
            Some(ConfigError::NegativeRadius)
        } else if self.separation_weight < 0 || self.alignment_weight < 0 || self.cohesion_weight
            < 0 {
            Some(ConfigError::NegativeWeight)
        } else if self.width < 2 || self.height < 2 {
            Some(ConfigError::EmptyWorld)
        } else if !self.wf() {
            Some(ConfigError::OutOfRange)
        } else {
            None
        }
    }

    pub open spec fn half_width(&self) -> int {
        self.width / 2
    }

    pub open spec fn half_height(&self) -> int {
        self.height / 2
    }

    /// This configuration if the simulation accepts it, else the first problem found.
    pub fn validated(self) -> (r: Result<Config, ConfigError>)
        ensures
            r is Ok <==> self.wf(),
            r is Ok ==> r == Ok::<Config, ConfigError>(self),
            r is Err ==> r == Err::<Config, ConfigError>(self.first_error().unwrap()),
            self.first_error() is None <==> self.wf(),
    {
        if self.max_speed <= 0 {
            Err(ConfigError::NonPositiveSpeed)
        } else if self.max_force < 0 {
            Err(ConfigError::NegativeForce)
        } else if self.separation_radius < 0 || self.alignment_radius < 0 || self.cohesion_radius
            < 0 {
            Err(ConfigError::NegativeRadius)
        } else if self.separation_weight < 0 || self.alignment_weight < 0 || self.cohesion_weight
            < 0 {
            Err(ConfigError::NegativeWeight)
        } else if self.width < 2 || self.height < 2 {
            Err(ConfigError::EmptyWorld)
        } else if self.max_speed > SPEED_LIMIT || self.max_force > SPEED_LIMIT
            || self.separation_radius > RADIUS_LIMIT || self.alignment_radius > RADIUS_LIMIT
            || self.cohesion_radius > RADIUS_LIMIT || self.separation_weight > WEIGHT_LIMIT
            || self.alignment_weight > WEIGHT_LIMIT || self.cohesion_weight > WEIGHT_LIMIT
            || self.width > WORLD_LIMIT || self.height > WORLD_LIMIT {
            Err(ConfigError::OutOfRange)
        } else {
            Ok(self)
        }
    }

    /// Radius profile of small, tight flocks: separation 25, alignment and
    /// cohesion 20, weights 2.0, 1.5 and 1.3.
    pub fn tight(width: i64, height: i64) -> (r: Config)
        ensures
            r.width == width && r.height == height,
            r.max_force == 30_000 && r.max_speed == 2_800_000,
            r.separation_radius == 25 * UNIT && r.alignment_radius == 20 * UNIT
                && r.cohesion_radius == 20 * UNIT,
            r.separation_weight == 2000 && r.alignment_weight == 1500 && r.cohesion_weight
                == 1300,
    {
        Config {
            max_force: 30_000,
            max_speed: 2_800_000,
            separation_radius: 25 * UNIT,
            alignment_radius: 20 * UNIT,
            cohesion_radius: 20 * UNIT,
            separation_weight: 2000,
            alignment_weight: 1500,
            cohesion_weight: 1300,
            width,
            height,
        }
    }

    /// Radius profile of wide, loose flocks: separation 30, alignment and
    /// cohesion 50, weights 1.9, 1.0 and 1.0.
    pub fn loose(width: i64, height: i64) -> (r: Config)
        ensures
            r.width == width && r.height == height,
            r.max_force == 30_000 && r.max_speed == 2_800_000,
            r.separation_radius == 30 * UNIT && r.alignment_radius == 50 * UNIT
                && r.cohesion_radius == 50 * UNIT,
            r.separation_weight == 1900 && r.alignment_weight == 1000 && r.cohesion_weight
                == 1000,
    {
        Config {
            max_force: 30_000,
            max_speed: 2_800_000,
            separation_radius: 30 * UNIT,
            alignment_radius: 50 * UNIT,
            cohesion_radius: 50 * UNIT,
            separation_weight: 1900,
            alignment_weight: 1000,
            cohesion_weight: 1000,
            width,
            height,
        }
    }
}

} // verus!
