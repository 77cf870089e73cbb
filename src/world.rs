use vstd::prelude::*;

use crate::geometry::{
    in_range, lemma_travel_additive, COORD_LIMIT, lemma_travel_zero_time, travel, Compass, Movement, Position,
};

verus! {

/// A stable handle to an entity of a `World`.
#[derive(Clone, Copy, Debug, PartialEq, Eq, Structural)]
pub struct Entity {
    pub index: usize,
}

/// The role of an entity.
#[derive(Clone, Copy, Debug, PartialEq, Eq, Structural)]
pub enum Kind {
    Plane,
    Runway,
    GroundStation,
}

/// Where and how an entity is drawn: translation in picounits, rotation about
/// the screen normal in tenths of a degree (counter-clockwise), scale in thousandths.
#[derive(Clone, Copy, Debug, PartialEq, Eq, Structural)]
pub struct Transform {
    pub x: i64,
    pub y: i64,
    pub rotation: i64,
    pub scale: u32,
}

/// What is drawn for an entity.
#[derive(Clone, Copy, Debug, PartialEq, Eq, Structural)]
pub enum Look {
    PlaneIcon,
    TowerIcon,
    /// A grey strip, sizes in picounits.
    Strip { width: u64, length: u64 },
    /// A text showing a number.
    Number(u32),
}

/// One attribute value, of any of the attribute types.
#[derive(Clone, Copy, Debug, PartialEq, Eq, Structural)]
pub enum Attribute {
    Kind(Kind),
    Position(Position),
    Movement(Movement),
    Transform(Transform),
    Look(Look),
}

/// The attribute types.
#[derive(Clone, Copy, Debug, PartialEq, Eq, Structural)]
pub enum Slot {
    Kind,
    Position,
    Movement,
    Transform,
    Look,
}

/// Everything the world holds for one entity.
#[derive(Clone, Copy, Debug, PartialEq, Eq, Structural)]
pub struct Record {
    pub alive: bool,
    pub kind: Option<Kind>,
    pub position: Option<Position>,
    pub movement: Option<Movement>,
    pub transform: Option<Transform>,
    pub look: Option<Look>,
}

impl Record {
    /// A live entity without attributes.
    pub open spec fn fresh_spec() -> Record {
        Record { alive: true, kind: None, position: None, movement: None, transform: None, look: None }
    }

    /// What is left of a removed entity.
    pub open spec fn removed_spec() -> Record {
        Record { alive: false, kind: None, position: None, movement: None, transform: None, look: None }
    }

    pub open spec fn has(self, s: Slot) -> bool {
        match s {
            Slot::Kind => self.kind.is_some(),
            Slot::Position => self.position.is_some(),
            Slot::Movement => self.movement.is_some(),
            Slot::Transform => self.transform.is_some(),
            Slot::Look => self.look.is_some(),
        }
    }

    /// Live, and holding every attribute type in `wanted`.
    pub open spec fn has_all(self, wanted: Seq<Slot>) -> bool {
        self.alive && forall|k: int| 0 <= k < wanted.len() ==> self.has(#[trigger] wanted[k])
    }

    pub open spec fn with(self, a: Attribute) -> Record {
        match a {
            Attribute::Kind(v) => Record { kind: Some(v), ..self },
            Attribute::Position(v) => Record { position: Some(v), ..self },
            Attribute::Movement(v) => Record { movement: Some(v), ..self },
            Attribute::Transform(v) => Record { transform: Some(v), ..self },
            Attribute::Look(v) => Record { look: Some(v), ..self },
        }
    }

    pub open spec fn without(self, s: Slot) -> Record {
        match s {
            Slot::Kind => Record { kind: None, ..self },
            Slot::Position => Record { position: None, ..self },
            Slot::Movement => Record { movement: None, ..self },
            Slot::Transform => Record { transform: None, ..self },
            Slot::Look => Record { look: None, ..self },
        }
    }

    /// Moving this entity for `elapsed` milliseconds keeps its coordinates in range.
    pub open spec fn step_fits(self, c: &Compass, elapsed: u32) -> bool {
        match (self.position, self.movement) {
            (Some(p), Some(m)) => {
                let d = c.bearing(m.heading);
                let np = travel(p@, m.speed as int, elapsed as int, d);
                &&& in_range(np.0) && in_range(np.1)
                &&& match self.transform {
                    Some(t) => {
                        let nt = travel((t.x as int, t.y as int), m.speed as int, elapsed as int, d);
                        in_range(nt.0) && in_range(nt.1)
                    },
                    None => true,
                }
            },
            _ => true,
        }
    }

    /// This entity after `elapsed` milliseconds: one that holds a position and a
    /// movement travels, and its transform with it; any other stays as it is.
    pub open spec fn advanced(self, c: &Compass, elapsed: u32) -> Record {
        match (self.position, self.movement) {
            (Some(p), Some(m)) => {
                let d = c.bearing(m.heading);
                let np = travel(p@, m.speed as int, elapsed as int, d);
                Record {
                    position: Some(Position { x: np.0 as i64, y: np.1 as i64 }),
                    transform: match self.transform {
                        Some(t) => {
                            let nt = travel((t.x as int, t.y as int), m.speed as int, elapsed as int, d);
                            Some(Transform { x: nt.0 as i64, y: nt.1 as i64, ..t })
                        },
                        None => None,
                    },
                    ..self
                }
            },
            _ => self,
        }
    }

    pub fn has_slot(&self, s: Slot) -> (r: bool)
        ensures
            r == self.has(s),
    {
        match s {
            Slot::Kind => self.kind.is_some(),
            Slot::Position => self.position.is_some(),
            Slot::Movement => self.movement.is_some(),
            Slot::Transform => self.transform.is_some(),
            Slot::Look => self.look.is_some(),
        }
    }

    pub fn has_all_slots(&self, wanted: &Vec<Slot>) -> (r: bool)
        ensures
            r == self.has_all(wanted@),
    {
        if !self.alive {
            return false;
        }
        let mut k: usize = 0;
        while k < wanted.len()
            invariant
                k <= wanted@.len(),
                forall|j: int| 0 <= j < k ==> self.has(#[trigger] wanted@[j]),
            decreases wanted@.len() - k,
        {
            if !self.has_slot(wanted[k]) {
                return false;
            }
            k = k + 1;
        }
        true
    }
}

/// Advancing by no time changes no record.
pub proof fn lemma_advance_zero(r: Record, c: &Compass)
    ensures
        r.advanced(c, 0) == r,
{
    if let (Some(p), Some(m)) = (r.position, r.movement) {
        let d = c.bearing(m.heading);
        lemma_travel_zero_time(p@, m.speed as int, d);
        if let Some(t) = r.transform {
            lemma_travel_zero_time((t.x as int, t.y as int), m.speed as int, d);
        }
    }
}

/// Advancing by `t1` and then by `t2` gives the record that advancing by
/// `t1 + t2` gives, when both steps keep the coordinates in range.
pub proof fn lemma_advance_additive(r: Record, c: &Compass, t1: u32, t2: u32)
    requires
        t1 + t2 <= u32::MAX,
        r.step_fits(c, t1),
        r.advanced(c, t1).step_fits(c, t2),
    ensures
        r.step_fits(c, (t1 + t2) as u32),
        r.advanced(c, t1).advanced(c, t2) == r.advanced(c, (t1 + t2) as u32),
{
    if let (Some(p), Some(m)) = (r.position, r.movement) {
        let d = c.bearing(m.heading);
        lemma_travel_additive(p@, m.speed as int, t1 as int, t2 as int, d);
        if let Some(t) = r.transform {
            lemma_travel_additive((t.x as int, t.y as int), m.speed as int, t1 as int, t2 as int, d);
        }
    }
}

/// Every record of `s` advanced by `elapsed` milliseconds.
pub open spec fn advanced_all(s: Seq<Record>, c: &Compass, elapsed: u32) -> Seq<Record> {
    s.map_values(|r: Record| r.advanced(c, elapsed))
}

/// Every record of `s` can be advanced by `elapsed` milliseconds within range.
pub open spec fn all_fit(s: Seq<Record>, c: &Compass, elapsed: u32) -> bool {
    forall|i: int| 0 <= i < s.len() ==> (#[trigger] s[i]).step_fits(c, elapsed)
}

/// A step of no time leaves every record, and so every position, as it was.
pub proof fn lemma_world_zero_step(s: Seq<Record>, c: &Compass)
    ensures
        all_fit(s, c, 0) ==> advanced_all(s, c, 0) == s,
{
    assert forall|i: int| 0 <= i < s.len() implies #[trigger] advanced_all(s, c, 0)[i] == s[i] by {
        lemma_advance_zero(s[i], c);
    }
    assert(advanced_all(s, c, 0) =~= s);
}

/// A step of `t1` followed by a step of `t2` leaves the world as one step of
/// `t1 + t2` does, when both steps stay in range; that single step stays in
/// range too.
pub proof fn lemma_world_additive(s: Seq<Record>, c: &Compass, t1: u32, t2: u32)
    requires
        t1 + t2 <= u32::MAX,
        all_fit(s, c, t1),
        all_fit(advanced_all(s, c, t1), c, t2),
    ensures
        all_fit(s, c, (t1 + t2) as u32),
        advanced_all(advanced_all(s, c, t1), c, t2) == advanced_all(s, c, (t1 + t2) as u32),
{
    let once = advanced_all(s, c, t1);
    assert forall|i: int| 0 <= i < s.len() implies (#[trigger] s[i]).step_fits(c, (t1 + t2) as u32)
        && advanced_all(once, c, t2)[i] == advanced_all(s, c, (t1 + t2) as u32)[i] by {
        assert(once[i].step_fits(c, t2));
        lemma_advance_additive(s[i], c, t1, t2);
    }
    assert(advanced_all(once, c, t2) =~= advanced_all(s, c, (t1 + t2) as u32));
}

/// `speed * elapsed * c`, exactly.
fn offset(speed: u32, elapsed: u32, c: i32) -> (r: i128)
    ensures
        r == speed * elapsed * c,
        -0x1_0000_0000_0000_0000_0000_0000 < r < 0x1_0000_0000_0000_0000_0000_0000,
{
    proof {
        assert(0 <= speed * elapsed <= 0xffff_ffff_ffff_ffff) by (nonlinear_arith)
            requires
                0 <= speed <= 0xffff_ffff,
                0 <= elapsed <= 0xffff_ffff,
        ;
    }
    let se: u64 = speed as u64 * elapsed as u64;
    proof {
        assert(-0x1_0000_0000_0000_0000_0000_0000 < se * c < 0x1_0000_0000_0000_0000_0000_0000) by (nonlinear_arith)
            requires
                0 <= se <= 0xffff_ffff_ffff_ffff,
                -0x8000_0000 <= c <= 0x7fff_ffff,
        ;
    }
    se as i128 * c as i128
}

/// `v + d` when that sum is in the coordinate range.
fn shifted(v: i64, d: i128) -> (r: Option<i64>)
    requires
        -0x1_0000_0000_0000_0000_0000_0000 < d < 0x1_0000_0000_0000_0000_0000_0000,
    ensures
        r.is_some() == in_range(v + d),
        r matches Some(n) ==> n == v + d,
{
    let sum: i128 = v as i128 + d;
    if sum < -(COORD_LIMIT as i128) || sum > COORD_LIMIT as i128 {
        None
    } else {
        Some(sum as i64)
    }
}

fn advance_record(rec: Record, c: &Compass, elapsed: u32) -> (r: Option<Record>)
    requires
        c.wf(),
    ensures
        r.is_some() == rec.step_fits(c, elapsed),
        r matches Some(n) ==> n == rec.advanced(c, elapsed),
{
    match (rec.position, rec.movement) {
        (Some(p), Some(m)) => {
            let (east, north) = c.direction(m.heading);
            let dx = offset(m.speed, elapsed, east);
            let dy = offset(m.speed, elapsed, north);
            let x = match shifted(p.x, dx) {
                Some(v) => v,
                None => return None,
            };
            let y = match shifted(p.y, dy) {
                Some(v) => v,
                None => return None,
            };
            let transform = match rec.transform {
                Some(t) => {
                    let tx = match shifted(t.x, dx) {
                        Some(v) => v,
                        None => return None,
                    };
                    let ty = match shifted(t.y, dy) {
                        Some(v) => v,
                        None => return None,
                    };
                    Some(Transform { x: tx, y: ty, rotation: t.rotation, scale: t.scale })
                },
                None => None,
            };
            Some(
                Record {
                    alive: rec.alive,
                    kind: rec.kind,
                    position: Some(Position { x, y }),
                    movement: rec.movement,
                    transform,
                    look: rec.look,
                },
            )
        },
        _ => Some(rec),
    }
}

/// The entity store: an arena of entity records, indexed by handle.
pub struct World {
    records: Vec<Record>,
}

impl View for World {
    type V = Seq<Record>;

    closed spec fn view(&self) -> Seq<Record> {
        self.records@
    }
}

impl World {
    /// True when `e` is a live entity of this world.
    pub open spec fn live(&self, e: Entity) -> bool {
        e.index < self@.len() && self@[e.index as int].alive
    }

    /// Every entity can be moved for `elapsed` milliseconds within the coordinate range.
    pub open spec fn advance_fits(&self, c: &Compass, elapsed: u32) -> bool {
        all_fit(self@, c, elapsed)
    }

    pub fn new() -> (w: World)
        ensures
            w@ == Seq::<Record>::empty(),
    {
        World { records: Vec::new() }
    }

    /// Number of entities ever created.
    pub fn len(&self) -> (r: usize)
        ensures
            r == self@.len(),
    {
        self.records.len()
    }

    /// Adds an entity holding the attributes of `r`.
    pub fn spawn(&mut self, r: Record) -> (e: Entity)
        ensures
            final(self)@ == old(self)@.push(r),
            e.index == old(self)@.len(),
    {
        let index = self.records.len();
        self.records.push(r);
        Entity { index }
    }

    /// Adds a live entity without attributes.
    pub fn create_entity(&mut self) -> (e: Entity)
        ensures
            final(self)@ == old(self)@.push(Record::fresh_spec()),
            e.index == old(self)@.len(),
    {
        self.spawn(
            Record { alive: true, kind: None, position: None, movement: None, transform: None, look: None },
        )
    }

    /// What the world holds for `e`, if `e` was ever created.
    pub fn record(&self, e: Entity) -> (r: Option<Record>)
        ensures
            r == (if e.index < self@.len() { Some(self@[e.index as int]) } else { None }),
    {
        if e.index < self.records.len() {
            Some(self.records[e.index])
        } else {
            None
        }
    }

    /// Sets attribute `a` of a live entity, replacing one of the same type.
    pub fn attach(&mut self, e: Entity, a: Attribute) -> (done: bool)
        ensures
            done == old(self).live(e),
            done ==> final(self)@ == old(self)@.update(e.index as int, old(self)@[e.index as int].with(a)),
            !done ==> final(self)@ == old(self)@,
    {
        if e.index >= self.records.len() || !self.records[e.index].alive {
            return false;
        }
        let mut r = self.records[e.index];
        match a {
            Attribute::Kind(v) => r.kind = Some(v),
            Attribute::Position(v) => r.position = Some(v),
            Attribute::Movement(v) => r.movement = Some(v),
            Attribute::Transform(v) => r.transform = Some(v),
            Attribute::Look(v) => r.look = Some(v),
        }
        self.records.set(e.index, r);
        true
    }

    /// Takes the attribute of type `s` off a live entity.
    pub fn detach(&mut self, e: Entity, s: Slot) -> (done: bool)
        ensures
            done == old(self).live(e),
            done ==> final(self)@ == old(self)@.update(e.index as int, old(self)@[e.index as int].without(s)),
            !done ==> final(self)@ == old(self)@,
    {
        if e.index >= self.records.len() || !self.records[e.index].alive {
            return false;
        }
        let mut r = self.records[e.index];
        match s {
            Slot::Kind => r.kind = None,
            Slot::Position => r.position = None,
            Slot::Movement => r.movement = None,
            Slot::Transform => r.transform = None,
            Slot::Look => r.look = None,
        }
        self.records.set(e.index, r);
        true
    }

    /// Removes a live entity with all its attributes; its handle is not reused.
    pub fn remove(&mut self, e: Entity) -> (done: bool)
        ensures
            done == old(self).live(e),
            done ==> final(self)@ == old(self)@.update(e.index as int, Record::removed_spec()),
            !done ==> final(self)@ == old(self)@,
    {
        if e.index >= self.records.len() || !self.records[e.index].alive {
            return false;
        }
        self.records.set(
            e.index,
            Record { alive: false, kind: None, position: None, movement: None, transform: None, look: None },
        );
        true
    }

    /// The live entities that hold every attribute type in `wanted`, by handle order.
    pub fn query(&self, wanted: &Vec<Slot>) -> (r: Vec<Entity>)
        ensures
            forall|k: int|
                0 <= k < r@.len() ==> (#[trigger] r@[k]).index < self@.len() && self@[r@[k].index as int].has_all(
                    wanted@,
                ),
            forall|i: int|
                0 <= i < self@.len() && (#[trigger] self@[i]).has_all(wanted@) ==> exists|k: int|
                    0 <= k < r@.len() && (#[trigger] r@[k]).index == i,
            forall|a: int, b: int| 0 <= a < b < r@.len() ==> r@[a].index < r@[b].index,
    {
        let mut r: Vec<Entity> = Vec::new();
        let mut i: usize = 0;
        while i < self.records.len()
            invariant
                i <= self@.len(),
                forall|k: int|
                    0 <= k < r@.len() ==> (#[trigger] r@[k]).index < i && self@[r@[k].index as int].has_all(
                        wanted@,
                    ),
                forall|j: int|
                    0 <= j < i && (#[trigger] self@[j]).has_all(wanted@) ==> exists|k: int|
                        0 <= k < r@.len() && (#[trigger] r@[k]).index == j,
                forall|a: int, b: int| 0 <= a < b < r@.len() ==> r@[a].index < r@[b].index,
            decreases self@.len() - i,
        {
            if self.records[i].has_all_slots(wanted) {
                let ghost before = r@;
                r.push(Entity { index: i });
                assert(r@[before.len() as int].index == i);
                assert forall|j: int|
                    0 <= j < i + 1 && (#[trigger] self@[j]).has_all(wanted@) implies exists|k: int|
                    0 <= k < r@.len() && (#[trigger] r@[k]).index == j by {
                    if j < i {
                        let k = choose|k: int| 0 <= k < before.len() && (#[trigger] before[k]).index == j;
                        assert(r@[k] == before[k]);
                    }
                }
            }
            i = i + 1;
        }
        r
    }

    /// Moves every entity that holds a position and a movement by `elapsed`
    /// milliseconds, its transform with it. When some coordinate would leave
    /// the range, nothing moves and the result is false.
    pub fn advance(&mut self, compass: &Compass, elapsed: u32) -> (moved: bool)
        requires
            compass.wf(),
        ensures
            moved == old(self).advance_fits(compass, elapsed),
            moved ==> final(self)@ == advanced_all(old(self)@, compass, elapsed),
            !moved ==> final(self)@ == old(self)@,
    {
        let mut next: Vec<Record> = Vec::new();
        let mut i: usize = 0;
        while i < self.records.len()
            invariant
                i <= self@.len(),
                next@.len() == i,
                forall|j: int| 0 <= j < i ==> (#[trigger] self@[j]).step_fits(compass, elapsed),
                forall|j: int| 0 <= j < i ==> #[trigger] next@[j] == self@[j].advanced(compass, elapsed),
                compass.wf(),
            decreases self@.len() - i,
        {
            match advance_record(self.records[i], compass, elapsed) {
                Some(n) => next.push(n),
                None => return false,
            }
            i = i + 1;
        }
        assert(next@ =~= advanced_all(self@, compass, elapsed));
        self.records = next;
        true
    }
}

} // verus!
