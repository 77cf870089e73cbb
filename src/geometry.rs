use vstd::prelude::*;

verus! {

/// World coordinates are held in picounits: 10^12 picounits make one world unit.
pub const PICO_PER_UNIT: i64 = 1_000_000_000_000;

/// Largest magnitude of a coordinate, about 2.3 million world units.
pub const COORD_LIMIT: i64 = 0x2000_0000_0000_0000;

/// Length of a compass direction: components are in millionths of a unit vector.
pub const DIR_SCALE: i32 = 1_000_000;

/// Number of headings in a full turn, in tenths of a degree.
pub const FULL_TURN: u32 = 3600;

/// A planar point, in picounits.
#[derive(Clone, Copy, Debug, PartialEq, Eq, Structural)]
pub struct Position {
    pub x: i64,
    pub y: i64,
}

/// Heading (tenths of a degree, clockwise from +y) and speed (thousandths of a
/// unit per second).
#[derive(Clone, Copy, Debug, PartialEq, Eq, Structural)]
pub struct Movement {
    pub heading: u32,
    pub speed: u32,
}

pub open spec fn in_range(v: int) -> bool {
    -COORD_LIMIT <= v <= COORD_LIMIT
}

impl Position {
    pub open spec fn view(self) -> (int, int) {
        (self.x as int, self.y as int)
    }

    /// Both coordinates lie in the representable range.
    pub open spec fn bounded(self) -> bool {
        in_range(self.x as int) && in_range(self.y as int)
    }

    pub open spec fn dist_sq(self, other: Position) -> nat {
        let dx = self.x - other.x;
        let dy = self.y - other.y;
        (dx * dx + dy * dy) as nat
    }

    pub open spec fn distance_spec(self, other: Position) -> nat {
        floor_sqrt(self.dist_sq(other))
    }

    /// Euclidean distance to `other`, rounded down to a whole picounit.
    pub fn distance(&self, other: &Position) -> (r: u64)
        requires
            self.bounded(),
            other.bounded(),
        ensures
            r == self.distance_spec(*other),
    {
        let dx: i128 = self.x as i128 - other.x as i128;
        let dy: i128 = self.y as i128 - other.y as i128;
        assert(dx * dx <= 0x1000_0000_0000_0000_0000_0000_0000_0000) by (nonlinear_arith)
            requires
                -0x4000_0000_0000_0000 <= dx <= 0x4000_0000_0000_0000,
        ;
        assert(dy * dy <= 0x1000_0000_0000_0000_0000_0000_0000_0000) by (nonlinear_arith)
            requires
                -0x4000_0000_0000_0000 <= dy <= 0x4000_0000_0000_0000,
        ;
        assert(0 <= dx * dx && 0 <= dy * dy) by (nonlinear_arith);
        let sum: i128 = dx * dx + dy * dy;
        let root = floor_sqrt_exec(sum as u128);
        proof {
            lemma_floor_sqrt(sum as nat);
            assert(root * root <= 0x2000_0000_0000_0000_0000_0000_0000_0000);
            assert(root < 0x8000_0000_0000_0000) by (nonlinear_arith)
                requires
                    root * root <= 0x2000_0000_0000_0000_0000_0000_0000_0000,
            ;
        }
        root as u64
    }
}

/// `r` is the integer square root of `n`.
pub open spec fn is_floor_sqrt(n: nat, r: nat) -> bool {
    r * r <= n && n < (r + 1) * (r + 1)
}

pub open spec fn floor_sqrt(n: nat) -> nat
    decreases n,
{
    if n == 0 {
        0
    } else {
        let r = floor_sqrt((n - 1) as nat);
        if (r + 1) * (r + 1) <= n {
            r + 1
        } else {
            r
        }
    }
}

pub proof fn lemma_floor_sqrt(n: nat)
    ensures
        is_floor_sqrt(n, floor_sqrt(n)),
    decreases n,
{
    if n == 0 {
        assert(floor_sqrt(0) == 0);
        assert((0nat + 1) * (0nat + 1) == 1) by (nonlinear_arith);
    } else {
        lemma_floor_sqrt((n - 1) as nat);
        let r = floor_sqrt((n - 1) as nat);
        if (r + 1) * (r + 1) <= n {
            assert(floor_sqrt(n) == r + 1);
            assert((r + 1) * (r + 1) <= n);
            assert(n < (r + 2) * (r + 2)) by (nonlinear_arith)
                requires
                    n - 1 < (r + 1) * (r + 1),
            ;
        } else {
            assert(floor_sqrt(n) == r);
            assert(r * r <= n);
            assert(n < (r + 1) * (r + 1));
        }
    }
}

pub proof fn lemma_floor_sqrt_unique(n: nat, r: nat)
    requires
        is_floor_sqrt(n, r),
    ensures
        r == floor_sqrt(n),
{
    lemma_floor_sqrt(n);
    let s = floor_sqrt(n);
    if r < s {
        assert((r + 1) * (r + 1) <= s * s) by (nonlinear_arith)
            requires
                r + 1 <= s,
        ;
    } else if s < r {
        assert((s + 1) * (s + 1) <= r * r) by (nonlinear_arith)
            requires
                s + 1 <= r,
        ;
    }
}

fn floor_sqrt_exec(n: u128) -> (r: u128)
    ensures
        r == floor_sqrt(n as nat),
{
    let mut lo: u128 = 0;
    let mut hi: u128 = 0x1_0000_0000_0000_0000;
    assert(n < hi * hi);
    while hi - lo > 1
        invariant
            lo < hi <= 0x1_0000_0000_0000_0000,
            lo * lo <= n,
            n < hi * hi,
        decreases hi - lo,
    {
        let mid: u128 = lo + (hi - lo) / 2;
        assert(mid * mid < 0x1_0000_0000_0000_0000_0000_0000_0000_0000) by (nonlinear_arith)
            requires
                mid < 0x1_0000_0000_0000_0000,
        ;
        if mid * mid <= n {
            lo = mid;
        } else {
            hi = mid;
        }
    }
    proof {
        lemma_floor_sqrt_unique(n as nat, lo as nat);
    }
    lo
}

/// Distance is symmetric, and zero from a point to itself.
pub proof fn lemma_distance_symmetric(a: Position, b: Position)
    ensures
        a.distance_spec(b) == b.distance_spec(a),
        a.distance_spec(a) == 0,
{
    assert((a.x - b.x) * (a.x - b.x) == (b.x - a.x) * (b.x - a.x)) by (nonlinear_arith);
    assert((a.y - b.y) * (a.y - b.y) == (b.y - a.y) * (b.y - a.y)) by (nonlinear_arith);
    assert(a.dist_sq(a) == 0);
}

/// Where a point at `from` ends after moving `elapsed` milliseconds at `speed`
/// along the compass direction `dir`.
pub open spec fn travel(from: (int, int), speed: int, elapsed: int, dir: (int, int)) -> (int, int) {
    (from.0 + speed * elapsed * dir.0, from.1 + speed * elapsed * dir.1)
}

/// A table of unit directions, one for each tenth of a degree, as (east, north)
/// components in millionths.
pub struct Compass {
    table: Vec<(i32, i32)>,
}

pub open spec fn within_scale(c: i32) -> bool {
    -DIR_SCALE <= c <= DIR_SCALE
}

pub open spec fn bounded_entry(e: (i32, i32)) -> bool {
    within_scale(e.0) && within_scale(e.1)
}

/// A usable table: a full turn of bounded entries, exact at the four cardinal points.
pub open spec fn valid_table(t: Seq<(i32, i32)>) -> bool {
    &&& t.len() == FULL_TURN
    &&& forall|i: int| 0 <= i < t.len() ==> bounded_entry(#[trigger] t[i])
    &&& t[0].0 == 0 && t[0].1 == DIR_SCALE
    &&& t[900].0 == DIR_SCALE && t[900].1 == 0
    &&& t[1800].0 == 0 && t[1800].1 == -DIR_SCALE
    &&& t[2700].0 == -DIR_SCALE && t[2700].1 == 0
}

impl View for Compass {
    type V = Seq<(i32, i32)>;

    closed spec fn view(&self) -> Seq<(i32, i32)> {
        self.table@
    }
}

impl Compass {
    pub open spec fn wf(&self) -> bool {
        valid_table(self@)
    }

    /// The direction of travel for a heading; headings wrap at a full turn.
    pub open spec fn bearing(&self, heading: u32) -> (int, int) {
        let e = self@[(heading % FULL_TURN) as int];
        (e.0 as int, e.1 as int)
    }

    /// Accepts `table` as a compass when it is a valid table.
    pub fn from_table(table: Vec<(i32, i32)>) -> (r: Option<Compass>)
        ensures
            r.is_some() == valid_table(table@),
            r matches Some(c) ==> c@ == table@,
    {
        if table.len() != 3600 {
            return None;
        }
        let mut i: usize = 0;
        while i < table.len()
            invariant
                i <= table@.len(),
                table@.len() == FULL_TURN,
                forall|k: int| 0 <= k < i ==> bounded_entry(#[trigger] table@[k]),
            decreases table@.len() - i,
        {
            let entry = table[i];
            if entry.0 < -DIR_SCALE || entry.0 > DIR_SCALE || entry.1 < -DIR_SCALE || entry.1 > DIR_SCALE {
                assert(!bounded_entry(table@[i as int]));
                return None;
            }
            assert(bounded_entry(table@[i as int]));
            i = i + 1;
        }
        let (n_east, n_north) = table[0];
        let (e_east, e_north) = table[900];
        let (s_east, s_north) = table[1800];
        let (w_east, w_north) = table[2700];
        if n_east != 0 || n_north != DIR_SCALE || e_east != DIR_SCALE || e_north != 0 || s_east != 0
            || s_north != -DIR_SCALE || w_east != -DIR_SCALE || w_north != 0 {
            return None;
        }
        Some(Compass { table })
    }

    pub fn direction(&self, heading: u32) -> (r: (i32, i32))
        requires
            self.wf(),
        ensures
            (r.0 as int, r.1 as int) == self.bearing(heading),
            within_scale(r.0) && within_scale(r.1),
    {
        let r = self.table[(heading % FULL_TURN) as usize];
        assert(bounded_entry(self@[(heading % FULL_TURN) as int]));
        r
    }
}

/// Moving for no time leaves a point where it is.
pub proof fn lemma_travel_zero_time(from: (int, int), speed: int, dir: (int, int))
    ensures
        travel(from, speed, 0, dir) == from,
{
    assert(speed * 0 * dir.0 == 0 && speed * 0 * dir.1 == 0) by (nonlinear_arith);
}

/// Two consecutive moves end where one move of the summed time ends.
pub proof fn lemma_travel_additive(from: (int, int), speed: int, t1: int, t2: int, dir: (int, int))
    ensures
        travel(travel(from, speed, t1, dir), speed, t2, dir) == travel(from, speed, t1 + t2, dir),
{
    assert(speed * t1 * dir.0 + speed * t2 * dir.0 == speed * (t1 + t2) * dir.0) by (nonlinear_arith);
    assert(speed * t1 * dir.1 + speed * t2 * dir.1 == speed * (t1 + t2) * dir.1) by (nonlinear_arith);
}

/// Heading zero moves straight up: x is kept and y grows by speed times time.
pub proof fn lemma_travel_north(c: &Compass, from: (int, int), speed: int, elapsed: int)
    requires
        c.wf(),
    ensures
        travel(from, speed, elapsed, c.bearing(0)) == (from.0, from.1 + speed * elapsed * DIR_SCALE),
{
    assert(speed * elapsed * 0 == 0) by (nonlinear_arith);
}

/// Heading ninety degrees moves straight right: y is kept and x grows by speed times time.
pub proof fn lemma_travel_east(c: &Compass, from: (int, int), speed: int, elapsed: int)
    requires
        c.wf(),
    ensures
        travel(from, speed, elapsed, c.bearing(900)) == (from.0 + speed * elapsed * DIR_SCALE, from.1),
{
    assert(speed * elapsed * 0 == 0) by (nonlinear_arith);
}

} // verus!
