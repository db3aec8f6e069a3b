use vstd::prelude::*;
use crate::pos_map::PosMap;
use crate::rng::{std_rng_below, std_rng_between, std_rng_coin, Draw, MapRng};
use crate::types::{Pos, Resource, ResourceKind};

verus! {

/// Largest width or height a map may have: coordinates one step outside the
/// map must fit in an `i32`, and so must the Manhattan distance between any
/// two cells, which the robots compute in `i32` (two coordinate differences of
/// up to `MAX_SIDE` each).
pub const MAX_SIDE: usize = 0x3fff_ffff;

/// Durability of a freshly generated wall.
pub const WALL_MAX_DURABILITY: u8 = 3;

/// A cell of the terrain.
#[derive(Clone, Copy, Debug, PartialEq, Eq, Structural)]
pub enum Tile {
    Empty,
    /// A wall, with its remaining durability.
    Obstacle(u8),
    Base,
}

/// The terrain: `tiles[y][x]` for `0 <= y < height`, `0 <= x < width`.
pub struct GridMap {
    pub width: usize,
    pub height: usize,
    pub tiles: Vec<Vec<Tile>>,
}

impl GridMap {
    /// The rows have the announced dimensions, which are small enough for
    /// signed neighbour arithmetic.
    pub open spec fn wf(&self) -> bool {
        &&& self.width <= MAX_SIDE
        &&& self.height <= MAX_SIDE
        &&& self.tiles@.len() == self.height
        &&& forall|y: int| 0 <= y < self.height ==> #[trigger] self.tiles@[y]@.len() == self.width
    }

    pub open spec fn in_bounds(&self, x: int, y: int) -> bool {
        0 <= x < self.width && 0 <= y < self.height
    }

    /// The tile at `(x, y)`, meaningful inside the map.
    pub open spec fn tile(&self, x: int, y: int) -> Tile {
        self.tiles@[y]@[x]
    }

    pub open spec fn spec_passable(&self, x: int, y: int) -> bool {
        self.in_bounds(x, y) && !(self.tile(x, y) is Obstacle)
    }

    pub open spec fn spec_is_base(&self, x: int, y: int) -> bool {
        self.in_bounds(x, y) && self.tile(x, y) == Tile::Base
    }

    pub open spec fn spec_base_pos(&self) -> Pos {
        ((self.width / 2) as usize, (self.height / 2) as usize)
    }

    /// Whether `(x, y)` lies on the map and is not a wall.
    pub fn is_passable(&self, x: usize, y: usize) -> (r: bool)
        requires
            self.wf(),
        ensures
            r == self.spec_passable(x as int, y as int),
    {
        if x < self.width && y < self.height {
            match self.tiles[y][x] {
                Tile::Obstacle(_) => false,
                _ => true,
            }
        } else {
            false
        }
    }

    /// Whether `(x, y)` lies on the map and belongs to the base.
    pub fn is_base(&self, x: usize, y: usize) -> (r: bool)
        requires
            self.wf(),
        ensures
            r == self.spec_is_base(x as int, y as int),
    {
        if x < self.width && y < self.height {
            match self.tiles[y][x] {
                Tile::Base => true,
                _ => false,
            }
        } else {
            false
        }
    }

    /// The centre of the map, where the base stands.
    pub fn base_pos(&self) -> (r: Pos)
        ensures
            r == self.spec_base_pos(),
    {
        (self.width / 2, self.height / 2)
    }

    /// Damages the wall at `(x, y)` by `dmg`: its durability drops by `dmg`, and
    /// the wall disappears (the cell becomes empty) once nothing is left.
    /// Returns whether a wall was hit.
    pub fn damage_wall(&mut self, x: usize, y: usize, dmg: u8) -> (r: bool)
        requires
            old(self).wf(),
        ensures
            final(self).wf(),
            final(self).width == old(self).width,
            final(self).height == old(self).height,
            r == (old(self).in_bounds(x as int, y as int) && old(self).tile(x as int, y as int) is Obstacle),
            !r ==> *final(self) == *old(self),
            forall|a: int, b: int| #![trigger final(self).tile(a, b)]
                final(self).in_bounds(a, b) ==> final(self).tile(a, b) == (
                    if r && a == x && b == y { spec_damaged(old(self).tile(a, b), dmg) } else { old(self).tile(a, b) }),
            passability_grows(*old(self), *final(self)),
            r ==> (old(self).tile(x as int, y as int) matches Tile::Obstacle(d) && {
                &&& (d <= dmg ==> final(self).tile(x as int, y as int) == Tile::Empty)
                &&& (dmg < d ==> (final(self).tile(x as int, y as int) matches Tile::Obstacle(e) && e + dmg == d))
            }),
    {
        if x >= self.width || y >= self.height {
            return false;
        }
        let t: Tile = self.tiles[y][x];
        match t {
            Tile::Obstacle(d) => {
                let next: Tile = if d <= dmg { Tile::Empty } else { Tile::Obstacle(d - dmg) };
                let mut row: Vec<Tile> = Vec::new();
                self.tiles.set_and_swap(y, &mut row);
                row.set(x, next);
                self.tiles.set_and_swap(y, &mut row);
                true
            }
            _ => false,
        }
    }
}

/// The map `b` has the dimensions of `a` and every passable cell of `a`
/// (walls only wear away).
pub open spec fn passability_grows(a: GridMap, b: GridMap) -> bool {
    &&& b.width == a.width
    &&& b.height == a.height
    &&& forall|x: int, y: int| #[trigger] a.spec_passable(x, y) ==> b.spec_passable(x, y)
}

/// What a wall becomes after taking `dmg` damage.
pub open spec fn spec_damaged(t: Tile, dmg: u8) -> Tile {
    match t {
        Tile::Obstacle(d) => if d <= dmg { Tile::Empty } else { Tile::Obstacle((d - dmg) as u8) },
        _ => t,
    }
}


/// Arithmetic modulo 2^64.
pub open spec fn wrap64(v: int) -> u64 {
    (v % 0x1_0000_0000_0000_0000) as u64
}

/// The SplitMix64 finaliser applied to `seed`.
pub open spec fn spec_mix_seed(seed: u32) -> u64 {
    let z0 = wrap64(seed + 0x9E37_79B9_7F4A_7C15);
    let z1 = wrap64((z0 ^ (z0 >> 30u64)) * 0xBF58_476D_1CE4_E5B9);
    let z2 = wrap64((z1 ^ (z1 >> 27u64)) * 0x94D0_49BB_1331_11EB);
    z2 ^ (z2 >> 31u64)
}

/// Spreads a player-typed seed over 64 bits (SplitMix64), so that close seeds
/// give unrelated maps.
pub fn mix_seed(seed: u32) -> (r: u64)
    ensures
        r == spec_mix_seed(seed),
{
    let s: u64 = seed as u64;
    let z0: u64 = s.wrapping_add(0x9E37_79B9_7F4A_7C15);
    let z1: u64 = (z0 ^ (z0 >> 30u64)).wrapping_mul(0xBF58_476D_1CE4_E5B9);
    let z2: u64 = (z1 ^ (z1 >> 27u64)).wrapping_mul(0x94D0_49BB_1331_11EB);
    z2 ^ (z2 >> 31u64)
}

/// The 5x5 square around the base centre.
pub open spec fn in_base_zone(width: int, height: int, x: int, y: int) -> bool {
    let bx = width / 2;
    let by = height / 2;
    bx - 2 <= x <= bx + 2 && by - 2 <= y <= by + 2
}

/// The terrain `generate` lays out: the base square, then walls at full
/// durability where `walls` asks for one, empty ground elsewhere.
pub open spec fn generated_tile(width: int, height: int, walls: Seq<Vec<bool>>, x: int, y: int) -> Tile {
    if in_base_zone(width, height, x, y) {
        Tile::Base
    } else if walls[y]@[x] {
        Tile::Obstacle(WALL_MAX_DURABILITY)
    } else {
        Tile::Empty
    }
}

/// The number of deposits `generate` aims for on a `width` x `height` map.
pub open spec fn deposit_target(width: int, height: int) -> int {
    (width * height) / 35
}

/// The quantity range of a deposit of `kind`.
pub open spec fn kind_range(kind: ResourceKind, energy: (u32, u32), crystal: (u32, u32)) -> (u32, u32) {
    match kind {
        ResourceKind::Energy => energy,
        ResourceKind::Crystal => crystal,
    }
}

/// Bound on the placement attempts of `generate`.
pub const PLACEMENT_ATTEMPTS: u32 = 100_000;

/// The kind of a deposit whose coin came up `coin`: energy on heads.
pub open spec fn deposit_kind(coin: bool) -> ResourceKind {
    if coin { ResourceKind::Energy } else { ResourceKind::Crystal }
}

/// Whether a deposit may go on `p`: on the map, on empty ground, and not on
/// a deposit already placed.
pub open spec fn cell_free(map: GridMap, placed: Map<Pos, Resource>, p: Pos) -> bool {
    &&& map.in_bounds(p.0 as int, p.1 as int)
    &&& map.tile(p.0 as int, p.1 as int) == Tile::Empty
    &&& !placed.contains_key(p)
}

/// One placement attempt `(cell, coin, quantity)`: the deposit lands when the
/// cell is free, and nothing changes otherwise.
pub open spec fn after_attempt(map: GridMap, placed: Map<Pos, Resource>, a: (Pos, bool, u32)) -> Map<Pos, Resource> {
    if cell_free(map, placed, a.0) {
        placed.insert(a.0, Resource { kind: deposit_kind(a.1), quantity: a.2 })
    } else {
        placed
    }
}

/// The deposits left by a sequence of placement attempts, from none.
pub open spec fn fold_attempts(map: GridMap, tr: Seq<(Pos, bool, u32)>) -> Map<Pos, Resource>
    decreases tr.len(),
{
    if tr.len() == 0 {
        Map::empty()
    } else {
        after_attempt(map, fold_attempts(map, tr.drop_last()), tr.last())
    }
}

/// The requests one placement attempt `(cell, coin, quantity)` makes of the
/// generator, given the deposits already placed: a column below the width
/// and a row below the height; then, only when the cell is free, a coin for the
/// kind and a quantity from that kind's range.
pub open spec fn attempt_draws(
    map: GridMap,
    placed: Map<Pos, Resource>,
    a: (Pos, bool, u32),
    energy: (u32, u32),
    crystal: (u32, u32),
) -> Seq<Draw> {
    let cell = seq![Draw::Below { n: map.width, r: a.0.0 }, Draw::Below { n: map.height, r: a.0.1 }];
    if cell_free(map, placed, a.0) {
        let range = kind_range(deposit_kind(a.1), energy, crystal);
        cell + seq![Draw::Coin { heads: a.1 }, Draw::Between { lo: range.0, hi: range.1, value: a.2 }]
    } else {
        cell
    }
}

/// The requests a sequence of placement attempts makes of the generator.
pub open spec fn trace_draws(map: GridMap, tr: Seq<(Pos, bool, u32)>, energy: (u32, u32), crystal: (u32, u32)) -> Seq<Draw>
    decreases tr.len(),
{
    if tr.len() == 0 {
        Seq::empty()
    } else {
        trace_draws(map, tr.drop_last(), energy, crystal)
            + attempt_draws(map, fold_attempts(map, tr.drop_last()), tr.last(), energy, crystal)
    }
}

/// Whether a deposit may go on `(x, y)` (see `cell_free`).
pub fn cell_is_free(map: &GridMap, placed: &PosMap<Resource>, x: usize, y: usize) -> (r: bool)
    requires
        map.wf(),
    ensures
        r == cell_free(*map, placed@, (x, y)),
{
    if x >= map.width || y >= map.height {
        return false;
    }
    let empty: bool = match map.tiles[y][x] {
        Tile::Empty => true,
        _ => false,
    };
    empty && !placed.contains_key((x, y))
}

/// One placement attempt: puts a deposit of kind `deposit_kind(coin)` and
/// quantity `quantity` on `(x, y)` if and only if that cell is free.
pub fn place_deposit(map: &GridMap, placed: &mut PosMap<Resource>, x: usize, y: usize, coin: bool, quantity: u32)
    requires
        map.wf(),
    ensures
        final(placed)@ == after_attempt(*map, old(placed)@, ((x, y), coin, quantity)),
{
    if cell_is_free(map, placed, x, y) {
        let kind: ResourceKind = if coin { ResourceKind::Energy } else { ResourceKind::Crystal };
        placed.insert((x, y), Resource { kind, quantity });
    }
}

/// Scatters deposits with `rng` on the empty ground of `map`, aiming for
/// `width * height / 35` of them: each attempt draws a column and a row; when
/// that cell is empty ground without a deposit, it draws a kind (a coin: energy
/// on heads) and a quantity from that kind's range, and places the deposit. It
/// stops once the target is reached or after `PLACEMENT_ATTEMPTS` attempts.
pub fn scatter_deposits(
    map: &GridMap,
    rng: &mut MapRng,
    energy_range: (u32, u32),
    crystal_range: (u32, u32),
) -> (r: PosMap<Resource>)
    requires
        map.wf(),
        map.width * map.height <= usize::MAX,
        energy_range.0 <= energy_range.1,
        crystal_range.0 <= crystal_range.1,
    ensures
        forall|p: Pos| #[trigger] r@.contains_key(p) ==> {
            &&& map.in_bounds(p.0 as int, p.1 as int)
            &&& map.tile(p.0 as int, p.1 as int) == Tile::Empty
            &&& kind_range(r@[p].kind, energy_range, crystal_range).0 <= r@[p].quantity
            &&& r@[p].quantity <= kind_range(r@[p].kind, energy_range, crystal_range).1
        },
        r@.len() <= deposit_target(map.width as int, map.height as int),
        exists|tr: Seq<(Pos, bool, u32)>| {
            &&& tr.len() <= PLACEMENT_ATTEMPTS
            &&& r@ == fold_attempts(*map, tr)
            &&& final(rng).log() == old(rng).log() + trace_draws(*map, tr, energy_range, crystal_range)
            &&& r@.len() < deposit_target(map.width as int, map.height as int) ==> tr.len() == PLACEMENT_ATTEMPTS
        },
        final(rng).seed() == old(rng).seed(),
{
    let mut resources: PosMap<Resource> = PosMap::new();
    let target: usize = (map.width * map.height) / 35;
    let mut attempts: u32 = 0;
    let ghost mut tr: Seq<(Pos, bool, u32)> = Seq::empty();
    proof {
        assert(old(rng).log() + trace_draws(*map, tr, energy_range, crystal_range) =~= old(rng).log());
    }
    while resources.len() < target && attempts < PLACEMENT_ATTEMPTS
        invariant
            tr.len() == attempts,
            attempts <= PLACEMENT_ATTEMPTS,
            resources@ == fold_attempts(*map, tr),
            rng.log() == old(rng).log() + trace_draws(*map, tr, energy_range, crystal_range),
            rng.seed() == old(rng).seed(),
            map.wf(),
            target == deposit_target(map.width as int, map.height as int),
            map.width * map.height <= usize::MAX,
            energy_range.0 <= energy_range.1,
            crystal_range.0 <= crystal_range.1,
            resources@.len() <= target,
            resources@.dom().finite(),
            forall|p: Pos| #[trigger] resources@.contains_key(p) ==> {
                &&& map.in_bounds(p.0 as int, p.1 as int)
                &&& map.tile(p.0 as int, p.1 as int) == Tile::Empty
                &&& kind_range(resources@[p].kind, energy_range, crystal_range).0 <= resources@[p].quantity
                &&& resources@[p].quantity <= kind_range(resources@[p].kind, energy_range, crystal_range).1
            },
        decreases PLACEMENT_ATTEMPTS - attempts,
    {
        assert(map.width > 0 && map.height > 0) by (nonlinear_arith)
            requires
                target >= 1,
                target == (map.width * map.height) / 35,
        ;
        let ghost log0 = rng.log();
        let ghost tr0 = tr;
        let x: usize = std_rng_below(rng, map.width);
        let y: usize = std_rng_below(rng, map.height);
        if cell_is_free(map, &resources, x, y) {
            let coin: bool = std_rng_coin(rng);
            let range: (u32, u32) = if coin { energy_range } else { crystal_range };
            let quantity: u32 = std_rng_between(rng, range.0, range.1);
            place_deposit(map, &mut resources, x, y, coin, quantity);
            proof {
                tr = tr.push(((x, y), coin, quantity));
            }
        } else {
            proof {
                tr = tr.push(((x, y), false, 0u32));
            }
        }
        proof {
            assert(tr.drop_last() =~= tr0);
            assert(rng.log() =~= log0 + attempt_draws(*map, fold_attempts(*map, tr0), tr.last(), energy_range, crystal_range));
            assert(rng.log() =~= old(rng).log() + trace_draws(*map, tr, energy_range, crystal_range));
        }
        attempts = attempts + 1;
    }
    resources
}

/// The seed of the deposit generator of the map made from `seed`: the mixed
/// seed XOR `0xA5A5_A5A5_A5A5_A5A5`, so that the deposits do not follow the
/// same random sequence as the terrain.
pub open spec fn spec_deposit_seed(seed: u32) -> u64 {
    spec_mix_seed(seed) ^ 0xA5A5_A5A5_A5A5_A5A5u64
}

/// The deposit generator of the map made from `seed`, with nothing asked of
/// it yet.
pub fn deposit_rng(seed: u32) -> (r: MapRng)
    ensures
        r.seed() == spec_deposit_seed(seed),
        r.log() == Seq::<Draw>::empty(),
{
    MapRng::seeded(mix_seed(seed) ^ 0xA5A5_A5A5_A5A5_A5A5u64)
}

impl GridMap {
    /// Builds the terrain from the wall pattern `walls[y][x]` (computed from
    /// the seed by the caller's noise function), clears the base square, then
    /// scatters deposits on empty ground with a generator seeded from `seed`:
    /// up to `width * height / 35` of them, each of a random kind with a
    /// quantity drawn from that kind's range (see `scatter_deposits`). The
    /// deposits are exactly what its placement attempts leave (`fold_attempts`);
    /// it stops attempting once the target is reached or after
    /// `PLACEMENT_ATTEMPTS` attempts.
    pub fn generate(
        width: usize,
        height: usize,
        seed: u32,
        walls: &Vec<Vec<bool>>,
        energy_range: (u32, u32),
        crystal_range: (u32, u32),
    ) -> (r: (GridMap, PosMap<Resource>))
        requires
            width <= MAX_SIDE,
            height <= MAX_SIDE,
            width * height <= usize::MAX,
            walls@.len() == height,
            forall|y: int| 0 <= y < height ==> #[trigger] walls@[y]@.len() == width,
            energy_range.0 <= energy_range.1,
            crystal_range.0 <= crystal_range.1,
        ensures
            r.0.wf(),
            r.0.width == width,
            r.0.height == height,
            forall|x: int, y: int| #![trigger r.0.tile(x, y)]
                0 <= x < width && 0 <= y < height
                    ==> r.0.tile(x, y) == generated_tile(width as int, height as int, walls@, x, y),
            forall|p: Pos| #[trigger] r.1@.contains_key(p) ==> {
                &&& r.0.in_bounds(p.0 as int, p.1 as int)
                &&& r.0.tile(p.0 as int, p.1 as int) == Tile::Empty
                &&& kind_range(r.1@[p].kind, energy_range, crystal_range).0 <= r.1@[p].quantity
                &&& r.1@[p].quantity <= kind_range(r.1@[p].kind, energy_range, crystal_range).1
            },
            r.1@.len() <= deposit_target(width as int, height as int),
            exists|tr: Seq<(Pos, bool, u32)>, g: MapRng| {
                &&& tr.len() <= PLACEMENT_ATTEMPTS
                &&& r.1@ == fold_attempts(r.0, tr)
                &&& r.1@.len() < deposit_target(width as int, height as int) ==> tr.len() == PLACEMENT_ATTEMPTS
                &&& g.seed() == spec_deposit_seed(seed)
                &&& g.log() == trace_draws(r.0, tr, energy_range, crystal_range)
            },
    {
        let bx: usize = width / 2;
        let by: usize = height / 2;
        let mut tiles: Vec<Vec<Tile>> = Vec::new();
        let mut y: usize = 0;
        while y < height
            invariant
                y <= height,
                width <= MAX_SIDE,
                height <= MAX_SIDE,
                bx == width / 2,
                by == height / 2,
                walls@.len() == height,
                forall|yy: int| 0 <= yy < height ==> #[trigger] walls@[yy]@.len() == width,
                tiles@.len() == y,
                forall|yy: int| 0 <= yy < y ==> #[trigger] tiles@[yy]@.len() == width,
                forall|xx: int, yy: int| #![trigger tiles@[yy]@[xx]] 0 <= xx < width && 0 <= yy < y
                    ==> tiles@[yy]@[xx] == generated_tile(width as int, height as int, walls@, xx, yy),
            decreases height - y,
        {
            let mut row: Vec<Tile> = Vec::new();
            let mut x: usize = 0;
            while x < width
                invariant
                    x <= width,
                    y < height,
                    width <= MAX_SIDE,
                    height <= MAX_SIDE,
                    bx == width / 2,
                    by == height / 2,
                    walls@.len() == height,
                    forall|yy: int| 0 <= yy < height ==> #[trigger] walls@[yy]@.len() == width,
                    row@.len() == x,
                    forall|xx: int| 0 <= xx < x
                        ==> #[trigger] row@[xx] == generated_tile(width as int, height as int, walls@, xx, y as int),
                decreases width - x,
            {
                let near_x: bool = x + 2 >= bx && x <= bx + 2;
                let near_y: bool = y + 2 >= by && y <= by + 2;
                let t: Tile = if near_x && near_y {
                    Tile::Base
                } else if walls[y][x] {
                    Tile::Obstacle(WALL_MAX_DURABILITY)
                } else {
                    Tile::Empty
                };
                row.push(t);
                x = x + 1;
            }
            tiles.push(row);
            y = y + 1;
        }
        let map = GridMap { width, height, tiles };

        let mut rng: MapRng = deposit_rng(seed);
        let resources: PosMap<Resource> = scatter_deposits(&map, &mut rng, energy_range, crystal_range);
        (map, resources)
    }
}

/// Every hit on a wall with positive damage wears it down: it either
/// disappears or keeps strictly less durability.
pub proof fn law_damage_wears_down(d: u8, dmg: u8)
    requires
        dmg > 0,
    ensures
        spec_damaged(Tile::Obstacle(d), dmg) == Tile::Empty
            || (spec_damaged(Tile::Obstacle(d), dmg) matches Tile::Obstacle(e) && e < d),
        d <= dmg ==> spec_damaged(Tile::Obstacle(d), dmg) == Tile::Empty,
{
}

/// A hit takes exactly its damage off a wall: a wall of durability `d` hit for
/// `dmg` is destroyed when `dmg` reaches `d`, and otherwise keeps `d - dmg`.
pub proof fn law_damage_is_exact(d: u8, dmg: u8)
    ensures
        d <= dmg ==> spec_damaged(Tile::Obstacle(d), dmg) == Tile::Empty,
        dmg < d ==> (spec_damaged(Tile::Obstacle(d), dmg) matches Tile::Obstacle(e) && e + dmg == d),
{
}

/// Damage only ever changes walls.
pub proof fn law_damage_only_walls(t: Tile, dmg: u8)
    requires
        !(t is Obstacle),
    ensures
        spec_damaged(t, dmg) == t,
{
}

} // verus!
