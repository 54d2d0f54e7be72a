//! The named values that a simulation runs with, and their validation.

use vstd::prelude::*;
use crate::colony::DIRECTION_ONE;
use crate::obstacle::MapParams;
use crate::schedule::{frames_of, spawn_period_frames, CadenceError};
use crate::steer::Sensors;
use crate::trail::STRENGTH_ONE;
use crate::world::TickSettings;

verus! {

/// The name of a value.
#[derive(Clone, Copy, PartialEq, Eq, Structural, Debug)]
pub enum ParamKey {
    /// The speed of an ant, in thousandths of a unit per second.
    AntSpeed,
    /// The widest turn that an ant makes at random in one tick, in
    /// millionths of a radian.
    AntWandering,
    MapOctaves,
    MapFrequency,
    MapLacunarity,
    MapPersistence,
    MapThreshold,
    /// The time between two markers of one ant, in microseconds.
    TrailSpawnPeriod,
    TrailInitialStrength,
    TrailDecayRate,
    /// The cosine of the angle between the middle sensor and the outer
    /// ones, in millionths.
    SensorCos,
    /// The sine of that angle, in millionths.
    SensorSin,
    SensorDistance,
    SensorRadius,
    /// The factor by which the pull of the trails turns an ant, in
    /// millionths.
    SensorTurningCoefficient,
    /// The number of ticks in a second.
    TickRate,
}

/// Why a configuration was not accepted.
#[derive(Clone, Copy, PartialEq, Eq, Structural, Debug)]
pub enum ConfigError {
    /// No entry has this name.
    MissingKey(ParamKey),
    /// The value under this name does not fit the kind of number that it
    /// stands for.
    OutOfRange(ParamKey),
    /// The spawn period is zero or negative.
    SpawnPeriodNotPositive,
    /// A second has no ticks.
    TickRateNotPositive,
    /// The spawn period is shorter than one tick.
    SpawnPeriodShorterThanStep,
    /// The spawn period has more ticks than can be counted.
    SpawnPeriodTooLong,
    /// The strength of a new marker is nothing, or more than one whole.
    InitialStrengthInvalid,
    /// The decay rate would make markers grow.
    DecayRateAboveOne,
    /// The cosine or sine of the sensor angle is more than one whole.
    SensorAngleInvalid,
}

impl ParamKey {
    /// The name under which the value is written in a configuration.
    pub open spec fn name_of(self) -> Seq<char> {
        match self {
            ParamKey::AntSpeed => "ant.speed"@,
            ParamKey::AntWandering => "ant.wandering"@,
            ParamKey::MapOctaves => "map.octaves"@,
            ParamKey::MapFrequency => "map.frequency"@,
            ParamKey::MapLacunarity => "map.lacunarity"@,
            ParamKey::MapPersistence => "map.persistence"@,
            ParamKey::MapThreshold => "map.threshold"@,
            ParamKey::TrailSpawnPeriod => "trail.spawn_period"@,
            ParamKey::TrailInitialStrength => "trail.initial_strength"@,
            ParamKey::TrailDecayRate => "trail.decay_rate"@,
            ParamKey::SensorCos => "sensor.angle.cos"@,
            ParamKey::SensorSin => "sensor.angle.sin"@,
            ParamKey::SensorDistance => "sensor.distance"@,
            ParamKey::SensorRadius => "sensor.radius"@,
            ParamKey::SensorTurningCoefficient => "sensor.turning_coefficient"@,
            ParamKey::TickRate => "tick.rate"@,
        }
    }

    /// The name under which the value is written in a configuration.
    pub fn name(&self) -> (r: &'static str)
        ensures
            r@ == self.name_of(),
    {
        match self {
            ParamKey::AntSpeed => "ant.speed",
            ParamKey::AntWandering => "ant.wandering",
            ParamKey::MapOctaves => "map.octaves",
            ParamKey::MapFrequency => "map.frequency",
            ParamKey::MapLacunarity => "map.lacunarity",
            ParamKey::MapPersistence => "map.persistence",
            ParamKey::MapThreshold => "map.threshold",
            ParamKey::TrailSpawnPeriod => "trail.spawn_period",
            ParamKey::TrailInitialStrength => "trail.initial_strength",
            ParamKey::TrailDecayRate => "trail.decay_rate",
            ParamKey::SensorCos => "sensor.angle.cos",
            ParamKey::SensorSin => "sensor.angle.sin",
            ParamKey::SensorDistance => "sensor.distance",
            ParamKey::SensorRadius => "sensor.radius",
            ParamKey::SensorTurningCoefficient => "sensor.turning_coefficient",
            ParamKey::TickRate => "tick.rate",
        }
    }
}

impl ConfigError {
    /// What is wrong, in words; for a fault of one value, `key` says which.
    pub open spec fn message_of(self) -> Seq<char> {
        match self {
            ConfigError::MissingKey(_) => "the configuration lacks a value"@,
            ConfigError::OutOfRange(_) => "a value of the configuration is out of range"@,
            ConfigError::SpawnPeriodNotPositive => "the trail spawn period must be positive"@,
            ConfigError::TickRateNotPositive => "a second must have at least one tick"@,
            ConfigError::SpawnPeriodShorterThanStep =>
                "the trail spawn period is shorter than one tick"@,
            ConfigError::SpawnPeriodTooLong => "the trail spawn period has too many ticks"@,
            ConfigError::InitialStrengthInvalid =>
                "the initial trail strength must be above zero and at most one"@,
            ConfigError::DecayRateAboveOne => "the trail decay rate must be at most one"@,
            ConfigError::SensorAngleInvalid =>
                "the sine and cosine of the sensor angle must be at most one"@,
        }
    }

    /// The name of the value that is at fault, where it is one value.
    pub fn key(&self) -> (r: Option<ParamKey>)
        ensures
            r == (match *self {
                ConfigError::MissingKey(k) => Some(k),
                ConfigError::OutOfRange(k) => Some(k),
                _ => None,
            }),
    {
        match self {
            ConfigError::MissingKey(k) => Some(*k),
            ConfigError::OutOfRange(k) => Some(*k),
            _ => None,
        }
    }

    /// What is wrong, in words.
    pub fn message(&self) -> (r: &'static str)
        ensures
            r@ == self.message_of(),
    {
        match self {
            ConfigError::MissingKey(_) => "the configuration lacks a value",
            ConfigError::OutOfRange(_) => "a value of the configuration is out of range",
            ConfigError::SpawnPeriodNotPositive => "the trail spawn period must be positive",
            ConfigError::TickRateNotPositive => "a second must have at least one tick",
            ConfigError::SpawnPeriodShorterThanStep =>
                "the trail spawn period is shorter than one tick",
            ConfigError::SpawnPeriodTooLong => "the trail spawn period has too many ticks",
            ConfigError::InitialStrengthInvalid =>
                "the initial trail strength must be above zero and at most one",
            ConfigError::DecayRateAboveOne => "the trail decay rate must be at most one",
            ConfigError::SensorAngleInvalid =>
                "the sine and cosine of the sensor angle must be at most one",
        }
    }
}

/// The values of a simulation, by name.
#[derive(Clone, Copy, PartialEq, Eq, Structural, Debug)]
pub struct SimulationParameters {
    pub ant_speed: i32,
    pub ant_wandering: i32,
    pub map: MapParams,
    pub trail_spawn_period_us: i64,
    pub trail_initial_strength: u64,
    pub trail_decay_rate: u64,
    pub sensors: Sensors,
    pub sensor_turning_coefficient: i32,
    pub ticks_per_second: u32,
}

/// The value that the entries give to a name: that of the last entry with
/// the name, as a later entry replaces an earlier one.
pub open spec fn value_of(entries: Seq<(ParamKey, i64)>, key: ParamKey) -> Option<i64>
    decreases entries.len(),
{
    if entries.len() == 0 {
        None
    } else if entries.last().0 == key {
        Some(entries.last().1)
    } else {
        value_of(entries.drop_last(), key)
    }
}

/// The value under a name, where it is there and lies between the bounds.
pub open spec fn bounded_value(
    entries: Seq<(ParamKey, i64)>,
    key: ParamKey,
    low: i64,
    high: i64,
) -> Result<i64, ConfigError> {
    match value_of(entries, key) {
        None => Err(ConfigError::MissingKey(key)),
        Some(v) => if low <= v <= high {
            Ok(v)
        } else {
            Err(ConfigError::OutOfRange(key))
        },
    }
}

/// Looks a name up.
pub fn lookup(entries: &Vec<(ParamKey, i64)>, key: ParamKey) -> (r: Option<i64>)
    ensures
        r == value_of(entries@, key),
{
    let mut i: usize = entries.len();
    proof {
        assert(entries@.take(i as int) =~= entries@);
    }
    while i > 0
        invariant
            i <= entries.len(),
            value_of(entries@, key) == value_of(entries@.take(i as int), key),
        decreases i,
    {
        proof {
            assert(entries@.take(i as int).drop_last() =~= entries@.take(i - 1));
        }
        if entries[i - 1].0 == key {
            return Some(entries[i - 1].1);
        }
        i -= 1;
    }
    proof {
        assert(entries@.take(0).len() == 0);
    }
    None
}

/// Looks a name up and holds the value to its bounds.
pub fn lookup_bounded(entries: &Vec<(ParamKey, i64)>, key: ParamKey, low: i64, high: i64) -> (r:
    Result<i64, ConfigError>)
    ensures
        r == bounded_value(entries@, key, low, high),
{
    match lookup(entries, key) {
        None => Err(ConfigError::MissingKey(key)),
        Some(v) => if low <= v && v <= high {
            Ok(v)
        } else {
            Err(ConfigError::OutOfRange(key))
        },
    }
}

/// The place of the last entry with a name, or -1 where there is none.
pub open spec fn last_index_of(entries: Seq<(ParamKey, i64)>, key: ParamKey) -> int
    decreases entries.len(),
{
    if entries.len() == 0 {
        -1
    } else if entries.last().0 == key {
        entries.len() - 1
    } else {
        last_index_of(entries.drop_last(), key)
    }
}

/// A new value at the place of the last entry with a name is what the
/// entries then give to the name, and the other names keep their values.
pub proof fn lemma_replaced_value(entries: Seq<(ParamKey, i64)>, key: ParamKey, value: i64)
    requires
        value_of(entries, key) is Some,
    ensures
        0 <= last_index_of(entries, key) < entries.len(),
        entries[last_index_of(entries, key)].0 == key,
        value_of(entries.update(last_index_of(entries, key), (key, value)), key) == Some(value),
        forall|other: ParamKey|
            other != key ==> value_of(
                entries.update(last_index_of(entries, key), (key, value)),
                other,
            ) == value_of(entries, other),
    decreases entries.len(),
{
    assert(entries.len() > 0);
    let i = last_index_of(entries, key);
    if entries.last().0 == key {
        let updated = entries.update(i, (key, value));
        assert(updated.drop_last() =~= entries.drop_last());
        assert(updated.last() == (key, value));
        assert forall|other: ParamKey| other != key implies value_of(updated, other) == value_of(
            entries,
            other,
        ) by {}
    } else {
        let front = entries.drop_last();
        lemma_replaced_value(front, key, value);
        let updated = entries.update(i, (key, value));
        assert(updated.drop_last() =~= front.update(i, (key, value)));
        assert(updated.last() == entries.last());
        assert forall|other: ParamKey| other != key implies value_of(updated, other) == value_of(
            entries,
            other,
        ) by {
            assert(value_of(front.update(i, (key, value)), other) == value_of(front, other));
        }
    }
}

/// Gives a name that has a value another one, between two ticks. Returns
/// whether the name had a value; a name without one gets none, and the
/// entries stay as they were.
pub fn set_value(entries: &mut Vec<(ParamKey, i64)>, key: ParamKey, value: i64) -> (r: bool)
    ensures
        r == (value_of(old(entries)@, key) is Some),
        r ==> final(entries)@ == old(entries)@.update(
            last_index_of(old(entries)@, key),
            (key, value),
        ),
        r ==> value_of(final(entries)@, key) == Some(value),
        !r ==> final(entries)@ == old(entries)@,
        forall|other: ParamKey|
            other != key ==> value_of(final(entries)@, other) == value_of(old(entries)@, other),
{
    let mut i: usize = entries.len();
    proof {
        assert(entries@.take(i as int) =~= entries@);
    }
    while i > 0
        invariant
            i <= entries.len(),
            entries@ == old(entries)@,
            value_of(entries@, key) == value_of(entries@.take(i as int), key),
            last_index_of(entries@, key) == last_index_of(entries@.take(i as int), key),
        decreases i,
    {
        proof {
            assert(entries@.take(i as int).drop_last() =~= entries@.take(i - 1));
        }
        if entries[i - 1].0 == key {
            proof {
                lemma_replaced_value(entries@, key, value);
            }
            entries.set(i - 1, (key, value));
            return true;
        }
        i -= 1;
    }
    proof {
        assert(entries@.take(0).len() == 0);
    }
    false
}

/// The names in the order in which they are read, each with the bounds of
/// its value.
pub open spec fn requirements() -> Seq<(ParamKey, i64, i64)> {
    seq![
        (ParamKey::AntSpeed, i32::MIN as i64, i32::MAX as i64),
        (ParamKey::AntWandering, i32::MIN as i64, i32::MAX as i64),
        (ParamKey::MapOctaves, 0i64, u32::MAX as i64),
        (ParamKey::MapFrequency, i64::MIN, i64::MAX),
        (ParamKey::MapLacunarity, i64::MIN, i64::MAX),
        (ParamKey::MapPersistence, i64::MIN, i64::MAX),
        (ParamKey::MapThreshold, i64::MIN, i64::MAX),
        (ParamKey::TrailSpawnPeriod, i64::MIN, i64::MAX),
        (ParamKey::TrailInitialStrength, 0i64, i64::MAX),
        (ParamKey::TrailDecayRate, 0i64, i64::MAX),
        (ParamKey::SensorCos, i32::MIN as i64, i32::MAX as i64),
        (ParamKey::SensorSin, i32::MIN as i64, i32::MAX as i64),
        (ParamKey::SensorDistance, i32::MIN as i64, i32::MAX as i64),
        (ParamKey::SensorRadius, i32::MIN as i64, i32::MAX as i64),
        (ParamKey::SensorTurningCoefficient, i32::MIN as i64, i32::MAX as i64),
        (ParamKey::TickRate, 0i64, u32::MAX as i64),
    ]
}

/// The first `n` names, in the order of `requirements`, all have a value
/// within bounds.
pub open spec fn all_present(entries: Seq<(ParamKey, i64)>, n: int) -> bool {
    forall|k: int|
        0 <= k < n ==> bounded_value(
            entries,
            (#[trigger] requirements()[k]).0,
            requirements()[k].1,
            requirements()[k].2,
        ) is Ok
}

/// The value of the name at place `k` of `requirements`.
pub open spec fn required(entries: Seq<(ParamKey, i64)>, k: int) -> i64 {
    value_of(entries, requirements()[k].0)->0
}

/// The parameters that the entries spell out, where every name has a value
/// within bounds.
pub open spec fn assembled(entries: Seq<(ParamKey, i64)>) -> SimulationParameters {
    SimulationParameters {
        ant_speed: required(entries, 0) as i32,
        ant_wandering: required(entries, 1) as i32,
        map: MapParams {
            octaves: required(entries, 2) as u32,
            frequency: required(entries, 3),
            lacunarity: required(entries, 4),
            persistence: required(entries, 5),
            threshold: required(entries, 6),
        },
        trail_spawn_period_us: required(entries, 7),
        trail_initial_strength: required(entries, 8) as u64,
        trail_decay_rate: required(entries, 9) as u64,
        sensors: Sensors {
            distance: required(entries, 12) as i32,
            cos: required(entries, 10) as i32,
            sin: required(entries, 11) as i32,
            radius: required(entries, 13) as i32,
        },
        sensor_turning_coefficient: required(entries, 14) as i32,
        ticks_per_second: required(entries, 15) as u32,
    }
}

/// Reads the name at place `k` of `requirements`, given that all names
/// before it were there.
fn read(entries: &Vec<(ParamKey, i64)>, k: usize, key: ParamKey, low: i64, high: i64) -> (r: Result<
    i64,
    ConfigError,
>)
    requires
        k < 16,
        requirements()[k as int] == (key, low, high),
        all_present(entries@, k as int),
    ensures
        r == bounded_value(entries@, key, low, high),
        r is Ok ==> all_present(entries@, k + 1) && r->Ok_0 == required(entries@, k as int) && low
            <= r->Ok_0 <= high,
{
    lookup_bounded(entries, key, low, high)
}

impl SimulationParameters {
    /// Reads the parameters from a list of named values. Every name has to
    /// be there, with a value that fits: the call fails with the first
    /// name, in the order of `requirements`, of which this is not so.
    pub fn from_entries(entries: &Vec<(ParamKey, i64)>) -> (r: Result<
        SimulationParameters,
        ConfigError,
    >)
        ensures
            r is Ok <==> all_present(entries@, 16),
            r is Ok ==> r->Ok_0 == assembled(entries@),
            r is Err ==> exists|k: int|
                0 <= k < 16 && all_present(entries@, k) && Err::<i64, ConfigError>(r->Err_0)
                    == bounded_value(
                    entries@,
                    (#[trigger] requirements()[k]).0,
                    requirements()[k].1,
                    requirements()[k].2,
                ),
    {
        let lo: i64 = i32::MIN as i64;
        let hi: i64 = i32::MAX as i64;
        let ant_speed = match read(entries, 0, ParamKey::AntSpeed, lo, hi) {
            Ok(v) => v as i32,
            Err(e) => {
                return Err(e);
            },
        };
        let ant_wandering = match read(entries, 1, ParamKey::AntWandering, lo, hi) {
            Ok(v) => v as i32,
            Err(e) => {
                return Err(e);
            },
        };
        let octaves = match read(entries, 2, ParamKey::MapOctaves, 0, u32::MAX as i64) {
            Ok(v) => v as u32,
            Err(e) => {
                return Err(e);
            },
        };
        let frequency = match read(entries, 3, ParamKey::MapFrequency, i64::MIN, i64::MAX) {
            Ok(v) => v,
            Err(e) => {
                return Err(e);
            },
        };
        let lacunarity = match read(entries, 4, ParamKey::MapLacunarity, i64::MIN, i64::MAX) {
            Ok(v) => v,
            Err(e) => {
                return Err(e);
            },
        };
        let persistence = match read(entries, 5, ParamKey::MapPersistence, i64::MIN, i64::MAX) {
            Ok(v) => v,
            Err(e) => {
                return Err(e);
            },
        };
        let threshold = match read(entries, 6, ParamKey::MapThreshold, i64::MIN, i64::MAX) {
            Ok(v) => v,
            Err(e) => {
                return Err(e);
            },
        };
        let period = match read(entries, 7, ParamKey::TrailSpawnPeriod, i64::MIN, i64::MAX) {
            Ok(v) => v,
            Err(e) => {
                return Err(e);
            },
        };
        let strength = match read(entries, 8, ParamKey::TrailInitialStrength, 0, i64::MAX) {
            Ok(v) => v as u64,
            Err(e) => {
                return Err(e);
            },
        };
        let rate = match read(entries, 9, ParamKey::TrailDecayRate, 0, i64::MAX) {
            Ok(v) => v as u64,
            Err(e) => {
                return Err(e);
            },
        };
        let cos = match read(entries, 10, ParamKey::SensorCos, lo, hi) {
            Ok(v) => v as i32,
            Err(e) => {
                return Err(e);
            },
        };
        let sin = match read(entries, 11, ParamKey::SensorSin, lo, hi) {
            Ok(v) => v as i32,
            Err(e) => {
                return Err(e);
            },
        };
        let distance = match read(entries, 12, ParamKey::SensorDistance, lo, hi) {
            Ok(v) => v as i32,
            Err(e) => {
                return Err(e);
            },
        };
        let radius = match read(entries, 13, ParamKey::SensorRadius, lo, hi) {
            Ok(v) => v as i32,
            Err(e) => {
                return Err(e);
            },
        };
        let coefficient = match read(entries, 14, ParamKey::SensorTurningCoefficient, lo, hi) {
            Ok(v) => v as i32,
            Err(e) => {
                return Err(e);
            },
        };
        let ticks_per_second = match read(entries, 15, ParamKey::TickRate, 0, u32::MAX as i64) {
            Ok(v) => v as u32,
            Err(e) => {
                return Err(e);
            },
        };
        Ok(
            SimulationParameters {
                ant_speed,
                ant_wandering,
                map: MapParams { octaves, frequency, lacunarity, persistence, threshold },
                trail_spawn_period_us: period,
                trail_initial_strength: strength,
                trail_decay_rate: rate,
                sensors: Sensors { distance, cos, sin, radius },
                sensor_turning_coefficient: coefficient,
                ticks_per_second,
            },
        )
    }

    /// What a tick is run with, where the parameters allow a run, or the
    /// first reason why they do not.
    pub open spec fn checked(self) -> Result<TickSettings, ConfigError> {
        match frames_of(self.trail_spawn_period_us, self.ticks_per_second) {
            Err(CadenceError::PeriodNotPositive) => Err(ConfigError::SpawnPeriodNotPositive),
            Err(CadenceError::TickRateNotPositive) => Err(ConfigError::TickRateNotPositive),
            Err(CadenceError::PeriodShorterThanStep) => Err(
                ConfigError::SpawnPeriodShorterThanStep,
            ),
            Err(CadenceError::PeriodTooLong) => Err(ConfigError::SpawnPeriodTooLong),
            Ok(frames) => if !(0 < self.trail_initial_strength <= STRENGTH_ONE) {
                Err(ConfigError::InitialStrengthInvalid)
            } else if self.trail_decay_rate > STRENGTH_ONE {
                Err(ConfigError::DecayRateAboveOne)
            } else if !self.sensors.wf() {
                Err(ConfigError::SensorAngleInvalid)
            } else {
                Ok(
                    TickSettings {
                        speed: self.ant_speed,
                        ticks_per_second: self.ticks_per_second,
                        frames,
                        initial_strength: self.trail_initial_strength,
                        decay_rate: self.trail_decay_rate,
                        sensors: self.sensors,
                        wandering: self.ant_wandering,
                    },
                )
            },
        }
    }

    /// Checks the parameters before a run. A spawn period that is not
    /// positive, or that holds no whole tick, is refused here, so that no
    /// tick ever divides by a period of no ticks.
    pub fn validate(&self) -> (r: Result<TickSettings, ConfigError>)
        ensures
            r == self.checked(),
            r is Ok ==> r->Ok_0.wf(),
    {
        let frames = match spawn_period_frames(self.trail_spawn_period_us, self.ticks_per_second) {
            Ok(frames) => frames,
            Err(CadenceError::PeriodNotPositive) => {
                return Err(ConfigError::SpawnPeriodNotPositive);
            },
            Err(CadenceError::TickRateNotPositive) => {
                return Err(ConfigError::TickRateNotPositive);
            },
            Err(CadenceError::PeriodTooLong) => {
                return Err(ConfigError::SpawnPeriodTooLong);
            },
            Err(CadenceError::PeriodShorterThanStep) => {
                return Err(ConfigError::SpawnPeriodShorterThanStep);
            },
        };
        if self.trail_initial_strength == 0 || self.trail_initial_strength > STRENGTH_ONE {
            Err(ConfigError::InitialStrengthInvalid)
        } else if self.trail_decay_rate > STRENGTH_ONE {
            Err(ConfigError::DecayRateAboveOne)
        } else if !(-DIRECTION_ONE <= self.sensors.cos && self.sensors.cos <= DIRECTION_ONE
            && -DIRECTION_ONE <= self.sensors.sin && self.sensors.sin <= DIRECTION_ONE) {
            Err(ConfigError::SensorAngleInvalid)
        } else {
            Ok(
                TickSettings {
                    speed: self.ant_speed,
                    ticks_per_second: self.ticks_per_second,
                    frames,
                    initial_strength: self.trail_initial_strength,
                    decay_rate: self.trail_decay_rate,
                    sensors: self.sensors,
                    wandering: self.ant_wandering,
                },
            )
        }
    }
}

} // verus!
