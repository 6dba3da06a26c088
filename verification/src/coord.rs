use vstd::prelude::*;
use vstd::std_specs::ops::AddSpecImpl;

verus! {

/// A point of the grid: `x` is the column, `y` the row.
#[derive(Debug, Clone, Copy, PartialEq, Eq, Hash, Structural)]
pub struct Coord {
    pub x: i32,
    pub y: i32,
}

/// The number of values of one component of a coordinate.
pub open spec fn span() -> int {
    0x1_0000_0000
}

impl Coord {
    /// Whether the component-wise sum with `other` is itself a coordinate.
    pub open spec fn can_add(self, other: Coord) -> bool {
        &&& i32::MIN <= self.x + other.x <= i32::MAX
        &&& i32::MIN <= self.y + other.y <= i32::MAX
    }

    /// The component-wise sum, meaningful where `can_add` holds.
    pub open spec fn plus(self, other: Coord) -> Coord {
        Coord { x: (self.x + other.x) as i32, y: (self.y + other.y) as i32 }
    }

    /// The number that stands for this coordinate where a map is keyed by integers:
    /// the column and the row, each counted from `i32::MIN`, as the two digits of a
    /// number in base `span()`.
    pub open spec fn key_spec(self) -> u64 {
        ((self.x - i32::MIN) * span() + (self.y - i32::MIN)) as u64
    }

    /// The coordinate that a key stands for.
    pub open spec fn from_key_spec(key: u64) -> Coord {
        Coord {
            x: ((key as int) / span() + i32::MIN) as i32,
            y: ((key as int) % span() + i32::MIN) as i32,
        }
    }

    /// The point in column `x` of row `y`.
    pub fn new(x: i32, y: i32) -> (c: Coord)
        ensures
            c == (Coord { x, y }),
    {
        Coord { x, y }
    }

    /// The sum with `other`, or `None` where a component would leave the range of `i32`.
    pub fn checked_add(self, other: Coord) -> (sum: Option<Coord>)
        ensures
            sum == (if self.can_add(other) {
                Some(self.plus(other))
            } else {
                None::<Coord>
            }),
    {
        match (self.x.checked_add(other.x), self.y.checked_add(other.y)) {
            (Some(x), Some(y)) => Some(Coord { x, y }),
            _ => None,
        }
    }

    /// The number that stands for this coordinate.
    pub fn key(self) -> (key: u64)
        ensures
            key == self.key_spec(),
    {
        let column: u64 = (self.x as i64 + 0x8000_0000) as u64;
        let row: u64 = (self.y as i64 + 0x8000_0000) as u64;
        column * 0x1_0000_0000 + row
    }

    /// The coordinate that `key` stands for.
    pub fn from_key(key: u64) -> (c: Coord)
        ensures
            c == Coord::from_key_spec(key),
    {
        let column: i64 = (key / 0x1_0000_0000) as i64 - 0x8000_0000;
        let row: i64 = (key % 0x1_0000_0000) as i64 - 0x8000_0000;
        Coord { x: column as i32, y: row as i32 }
    }

    /// Keys and coordinates stand in one-to-one correspondence: every coordinate is
    /// found again from its key, and every key from its coordinate.
    pub proof fn lemma_key_round_trip(c: Coord, key: u64)
        ensures
            Coord::from_key_spec(c.key_spec()) == c,
            Coord::from_key_spec(key).key_spec() == key,
    {
    }

    /// Two coordinates with one key are one coordinate.
    pub proof fn lemma_key_injective(a: Coord, b: Coord)
        requires
            a.key_spec() == b.key_spec(),
        ensures
            a == b,
    {
        Coord::lemma_key_round_trip(a, 0);
        Coord::lemma_key_round_trip(b, 0);
    }
}

impl AddSpecImpl for Coord {
    open spec fn obeys_add_spec() -> bool {
        true
    }

    open spec fn add_req(self, other: Coord) -> bool {
        self.can_add(other)
    }

    open spec fn add_spec(self, other: Coord) -> Coord {
        self.plus(other)
    }
}

impl core::ops::Add for Coord {
    type Output = Coord;

    fn add(self, other: Coord) -> (sum: Coord) {
        Coord { x: self.x + other.x, y: self.y + other.y }
    }
}

impl core::ops::AddAssign for Coord {
    fn add_assign(&mut self, other: Coord)
        requires
            old(self).can_add(other),
        ensures
            *final(self) == old(self).plus(other),
    {
        *self = Coord { x: self.x + other.x, y: self.y + other.y };
    }
}

} // verus!
