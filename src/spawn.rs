use vstd::prelude::*;

use crate::geometry::{Movement, Position, COORD_LIMIT, FULL_TURN, PICO_PER_UNIT};
use crate::world::{Entity, Kind, Look, Record, Transform, World};
use rand::rngs::StdRng;

verus! {

/// Scale of a plane icon, in thousandths.
pub const PLANE_SCALE: u32 = 100;

/// Scale of a ground station icon, in thousandths.
pub const STATION_SCALE: u32 = 50;

/// Scale of text and strips, in thousandths.
pub const UNIT_SCALE: u32 = 1000;

/// Width of a runway strip, in picounits.
pub const RUNWAY_WIDTH: u64 = 20_000_000_000_000;

/// The runway number of a heading given in tenths of a degree: the heading in
/// whole tens of degrees, rounded down.
pub fn runway_number(heading: u32) -> (r: u32)
    ensures
        r == heading / 100,
{
    heading / 100
}

/// A transform at `p`, turned against the heading.
pub open spec fn placed(p: Position, heading: u32, scale: u32) -> Transform {
    Transform { x: p.x, y: p.y, rotation: -(heading as int) as i64, scale }
}

pub open spec fn plane_record(p: Position, m: Movement) -> Record {
    Record {
        alive: true,
        kind: Some(Kind::Plane),
        position: Some(p),
        movement: Some(m),
        transform: Some(placed(p, m.heading, PLANE_SCALE)),
        look: Some(Look::PlaneIcon),
    }
}

/// The text beside a plane that shows its runway number; it does not move.
pub open spec fn label_record(p: Position, m: Movement) -> Record {
    Record {
        alive: true,
        kind: None,
        position: None,
        movement: None,
        transform: Some(placed(p, m.heading, UNIT_SCALE)),
        look: Some(Look::Number(m.heading / 100)),
    }
}

pub open spec fn runway_record(p: Position, length: u64, heading: u32) -> Record {
    Record {
        alive: true,
        kind: Some(Kind::Runway),
        position: Some(p),
        movement: None,
        transform: Some(placed(p, heading, UNIT_SCALE)),
        look: Some(Look::Strip { width: RUNWAY_WIDTH, length }),
    }
}

pub open spec fn station_record(p: Position) -> Record {
    Record {
        alive: true,
        kind: Some(Kind::GroundStation),
        position: Some(p),
        movement: None,
        transform: Some(placed(p, 0, STATION_SCALE)),
        look: Some(Look::TowerIcon),
    }
}

/// The records that spawning the planes of `d` adds, two for each: plane, then label.
pub open spec fn plane_records(d: Seq<(Position, Movement)>) -> Seq<Record>
    decreases d.len(),
{
    if d.len() == 0 {
        Seq::empty()
    } else {
        let (p, m) = d.last();
        plane_records(d.drop_last()) + seq![plane_record(p, m), label_record(p, m)]
    }
}

fn place(p: Position, heading: u32, scale: u32) -> (t: Transform)
    ensures
        t == placed(p, heading, scale),
{
    Transform { x: p.x, y: p.y, rotation: -(heading as i64), scale }
}

impl World {
    /// Adds a plane and, after it, the text showing its runway number.
    pub fn spawn_plane(&mut self, position: Position, movement: Movement) -> (r: (Entity, Entity))
        ensures
            final(self)@ == old(self)@ + seq![plane_record(position, movement), label_record(position, movement)],
            r.0.index == old(self)@.len(),
            r.1.index == old(self)@.len() + 1,
    {
        let plane = self.spawn(
            Record {
                alive: true,
                kind: Some(Kind::Plane),
                position: Some(position),
                movement: Some(movement),
                transform: Some(place(position, movement.heading, PLANE_SCALE)),
                look: Some(Look::PlaneIcon),
            },
        );
        let label = self.spawn(
            Record {
                alive: true,
                kind: None,
                position: None,
                movement: None,
                transform: Some(place(position, movement.heading, UNIT_SCALE)),
                look: Some(Look::Number(runway_number(movement.heading))),
            },
        );
        assert(self@ =~= old(self)@ + seq![plane_record(position, movement), label_record(position, movement)]);
        (plane, label)
    }

    /// Adds a runway strip of the given length (picounits) at `position`.
    pub fn spawn_runway(&mut self, position: Position, length: u64, heading: u32) -> (e: Entity)
        ensures
            final(self)@ == old(self)@.push(runway_record(position, length, heading)),
            e.index == old(self)@.len(),
    {
        self.spawn(
            Record {
                alive: true,
                kind: Some(Kind::Runway),
                position: Some(position),
                movement: None,
                transform: Some(place(position, heading, UNIT_SCALE)),
                look: Some(Look::Strip { width: RUNWAY_WIDTH, length }),
            },
        )
    }

    /// Adds a ground station at `position`.
    pub fn spawn_ground_station(&mut self, position: Position) -> (e: Entity)
        ensures
            final(self)@ == old(self)@.push(station_record(position)),
            e.index == old(self)@.len(),
    {
        self.spawn(
            Record {
                alive: true,
                kind: Some(Kind::GroundStation),
                position: Some(position),
                movement: None,
                transform: Some(place(position, 0, STATION_SCALE)),
                look: Some(Look::TowerIcon),
            },
        )
    }

    /// Spawns one plane for each entry of `draws`, in order.
    pub fn spawn_planes(&mut self, draws: &Vec<(Position, Movement)>)
        ensures
            final(self)@ == old(self)@ + plane_records(draws@),
    {
        let mut i: usize = 0;
        while i < draws.len()
            invariant
                i <= draws@.len(),
                self@ == old(self)@ + plane_records(draws@.take(i as int)),
            decreases draws@.len() - i,
        {
            let (p, m) = draws[i];
            self.spawn_plane(p, m);
            proof {
                let d = draws@.take(i + 1);
                assert(d.drop_last() =~= draws@.take(i as int));
                assert(d.last() == draws@[i as int]);
            }
            i = i + 1;
        }
        assert(draws@.take(i as int) =~= draws@);
    }
}

/// How the starting scene is laid out. Lengths and coordinates are in
/// picounits, speeds in thousandths of a unit per second, headings in tenths
/// of a degree.
#[derive(Clone, Copy, Debug, PartialEq, Eq, Structural)]
pub struct SceneConfig {
    pub plane_count: u32,
    /// Planes start within the square `[-half_extent, half_extent)` on both axes.
    pub half_extent: i64,
    pub min_speed: u32,
    pub max_speed: u32,
    pub runway_position: Position,
    pub runway_length: u64,
    pub runway_heading: u32,
    pub station_position: Position,
}

impl SceneConfig {
    pub open spec fn wf(&self) -> bool {
        0 < self.half_extent <= COORD_LIMIT && self.min_speed < self.max_speed
    }

    /// A plane may start at `p` with movement `m`.
    pub open spec fn admits(&self, p: Position, m: Movement) -> bool {
        &&& -self.half_extent <= p.x < self.half_extent
        &&& -self.half_extent <= p.y < self.half_extent
        &&& m.heading < FULL_TURN
        &&& self.min_speed <= m.speed < self.max_speed
    }

    /// Ten planes in a square of side 300 units at 20 to 50 units per second,
    /// a runway of length 270 at (20, 40) heading east, a station at the origin.
    pub fn standard() -> (c: SceneConfig)
        ensures
            c.wf(),
            c.plane_count == 10,
            c.half_extent == 150 * PICO_PER_UNIT,
            c.min_speed == 20_000,
            c.max_speed == 50_000,
            c.runway_position.x == 20 * PICO_PER_UNIT,
            c.runway_position.y == 40 * PICO_PER_UNIT,
            c.runway_length == 270 * PICO_PER_UNIT,
            c.runway_heading == 900,
            c.station_position == (Position { x: 0, y: 0 }),
    {
        SceneConfig {
            plane_count: 10,
            half_extent: 150 * PICO_PER_UNIT,
            min_speed: 20_000,
            max_speed: 50_000,
            runway_position: Position { x: 20 * PICO_PER_UNIT, y: 40 * PICO_PER_UNIT },
            runway_length: 270_000_000_000_000,
            runway_heading: 900,
            station_position: Position { x: 0, y: 0 },
        }
    }
}

#[verifier::external_type_specification]
#[verifier::external_body]
pub struct ExStdRng(StdRng);

/// Relies on rand::Rng::gen_range: a value in `[low, high)`; it panics on an
/// empty range.
#[verifier::external_body]
fn draw(rng: &mut StdRng, low: i64, high: i64) -> (r: i64)
    requires
        low < high,
    ensures
        low <= r < high,
{
    rand::Rng::gen_range(rng, low..high)
}

/// Draws a starting position and movement that `config` admits.
pub fn sample_plane(rng: &mut StdRng, config: &SceneConfig) -> (r: (Position, Movement))
    requires
        config.wf(),
    ensures
        config.admits(r.0, r.1),
{
    let x = draw(rng, -config.half_extent, config.half_extent);
    let y = draw(rng, -config.half_extent, config.half_extent);
    let heading = draw(rng, 0, FULL_TURN as i64);
    let speed = draw(rng, config.min_speed as i64, config.max_speed as i64);
    (Position { x, y }, Movement { heading: heading as u32, speed: speed as u32 })
}

impl World {
    /// Spawns the scene of `config`: its planes at drawn starting states, then
    /// the runway, then the ground station. Returns the drawn states.
    pub fn populate(&mut self, rng: &mut StdRng, config: &SceneConfig) -> (draws: Vec<(Position, Movement)>)
        requires
            config.wf(),
        ensures
            draws@.len() == config.plane_count,
            forall|k: int| 0 <= k < draws@.len() ==> config.admits(#[trigger] draws@[k].0, draws@[k].1),
            final(self)@ == old(self)@ + plane_records(draws@) + seq![
                runway_record(config.runway_position, config.runway_length, config.runway_heading),
                station_record(config.station_position),
            ],
    {
        let mut draws: Vec<(Position, Movement)> = Vec::new();
        let mut k: u32 = 0;
        while k < config.plane_count
            invariant
                k <= config.plane_count,
                draws@.len() == k,
                config.wf(),
                forall|j: int| 0 <= j < draws@.len() ==> config.admits(#[trigger] draws@[j].0, draws@[j].1),
            decreases config.plane_count - k,
        {
            let d = sample_plane(rng, config);
            draws.push(d);
            k = k + 1;
        }
        self.spawn_planes(&draws);
        self.spawn_runway(config.runway_position, config.runway_length, config.runway_heading);
        self.spawn_ground_station(config.station_position);
        assert(self@ =~= old(self)@ + plane_records(draws@) + seq![
            runway_record(config.runway_position, config.runway_length, config.runway_heading),
            station_record(config.station_position),
        ]);
        draws
    }
}

} // verus!
