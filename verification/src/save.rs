use vstd::prelude::*;
use crate::simulation::SimState;

verus! {

/// Number of purchase counters kept, one per store item.
pub const UPGRADE_SLOT_COUNT: usize = 6;

/// A map worth replaying: the seed fixes terrain and deposits, the level the
/// deposit quantities.
#[derive(Clone, Copy, Debug, PartialEq, Eq, Structural)]
pub struct FavoriteMap {
    pub seed: u32,
    pub level: usize,
}

/// The player's progression, kept between games.
#[derive(Clone, Debug)]
pub struct SaveData {
    pub total_energy: u32,
    pub total_crystals: u32,
    pub num_scouts: usize,
    pub num_collectors: usize,
    pub carry_capacity: u32,
    /// Extra quantity on energy deposits.
    pub energy_bonus: u32,
    /// Extra quantity on crystal deposits.
    pub crystal_bonus: u32,
    /// Wall-breaking power of the player's ship (1 to 3 durability per shot).
    pub wall_break_power: u8,
    /// Purchases made of each store item, which drive its price.
    pub upgrade_counts: Vec<u32>,
    pub favorite_maps: Vec<FavoriteMap>,
}

/// The power a save without one starts with.
pub fn default_wall_break_power() -> (r: u8)
    ensures
        r == 1,
{
    1
}

/// The purchase counters a save without them starts with: all zero.
pub fn default_upgrade_counts() -> (r: Vec<u32>)
    ensures
        r@ == Seq::new(UPGRADE_SLOT_COUNT as nat, |i: int| 0u32),
{
    let mut v: Vec<u32> = Vec::new();
    let mut i: usize = 0;
    while i < UPGRADE_SLOT_COUNT
        invariant
            i <= UPGRADE_SLOT_COUNT,
            v@ == Seq::new(i as nat, |j: int| 0u32),
        decreases UPGRADE_SLOT_COUNT - i,
    {
        v.push(0);
        i = i + 1;
    }
    v
}

/// `b` is `a` with power and counters brought into shape: power clamped to
/// `1..=3`, counters padded with zeros up to one per store item.
pub open spec fn normalized(a: SaveData, b: SaveData) -> bool {
    &&& b.total_energy == a.total_energy
    &&& b.total_crystals == a.total_crystals
    &&& b.num_scouts == a.num_scouts
    &&& b.num_collectors == a.num_collectors
    &&& b.carry_capacity == a.carry_capacity
    &&& b.energy_bonus == a.energy_bonus
    &&& b.crystal_bonus == a.crystal_bonus
    &&& b.wall_break_power == (if a.wall_break_power < 1 { 1 } else if a.wall_break_power > 3 { 3 } else { a.wall_break_power })
    &&& b.upgrade_counts@ == (if a.upgrade_counts@.len() < UPGRADE_SLOT_COUNT {
        a.upgrade_counts@ + Seq::new((UPGRADE_SLOT_COUNT - a.upgrade_counts@.len()) as nat, |i: int| 0u32)
    } else {
        a.upgrade_counts@
    })
    &&& b.favorite_maps@ == a.favorite_maps@
}

/// The progression of a new player.
pub open spec fn is_fresh_save(s: SaveData) -> bool {
    &&& s.total_energy == 0
    &&& s.total_crystals == 0
    &&& s.num_scouts == 2
    &&& s.num_collectors == 2
    &&& s.carry_capacity == 5
    &&& s.energy_bonus == 0
    &&& s.crystal_bonus == 0
    &&& s.wall_break_power == 1
    &&& s.upgrade_counts@ == Seq::new(UPGRADE_SLOT_COUNT as nat, |i: int| 0u32)
    &&& s.favorite_maps@.len() == 0
}

impl Default for SaveData {
    fn default() -> (r: Self)
        ensures
            is_fresh_save(r),
    {
        SaveData {
            total_energy: 0,
            total_crystals: 0,
            num_scouts: 2,
            num_collectors: 2,
            carry_capacity: 5,
            energy_bonus: 0,
            crystal_bonus: 0,
            wall_break_power: default_wall_break_power(),
            upgrade_counts: default_upgrade_counts(),
            favorite_maps: Vec::new(),
        }
    }
}

/// Some favourite has this seed.
pub open spec fn has_favorite(favs: Seq<FavoriteMap>, seed: u32) -> bool {
    exists|i: int| 0 <= i < favs.len() && (#[trigger] favs[i]).seed == seed
}

impl SaveData {
    /// Repairs a save read from disk or edited by hand: the wall-breaking
    /// power is clamped to `1..=3` and missing purchase counters are added as 0.
    pub fn normalize(&mut self)
        ensures
            normalized(*old(self), *final(self)),
            1 <= final(self).wall_break_power <= 3,
            1 <= old(self).wall_break_power <= 3 ==> final(self).wall_break_power == old(self).wall_break_power,
    {
        self.wall_break_power = if self.wall_break_power < 1 {
            1
        } else if self.wall_break_power > 3 {
            3
        } else {
            self.wall_break_power
        };
        let n: usize = self.upgrade_counts.len();
        if n < UPGRADE_SLOT_COUNT {
            let ghost start = self.upgrade_counts@;
            let mut i: usize = n;
            while i < UPGRADE_SLOT_COUNT
                invariant
                    n <= i <= UPGRADE_SLOT_COUNT,
                    start.len() == n,
                    start == old(self).upgrade_counts@,
                    self.total_energy == old(self).total_energy,
                    self.total_crystals == old(self).total_crystals,
                    self.num_scouts == old(self).num_scouts,
                    self.num_collectors == old(self).num_collectors,
                    self.carry_capacity == old(self).carry_capacity,
                    self.energy_bonus == old(self).energy_bonus,
                    self.crystal_bonus == old(self).crystal_bonus,
                    self.wall_break_power == (if old(self).wall_break_power < 1 { 1 } else if old(self).wall_break_power > 3 { 3 } else { old(self).wall_break_power }),
                    self.favorite_maps@ == old(self).favorite_maps@,
                    self.upgrade_counts@ == start + Seq::new((i - n) as nat, |j: int| 0u32),
                decreases UPGRADE_SLOT_COUNT - i,
            {
                self.upgrade_counts.push(0);
                i = i + 1;
            }
        }
    }

    /// The progression to play with, given what could be read back from disk:
    /// the save read, normalized, or a fresh one when nothing could be read.
    pub fn load_from(parsed: Option<SaveData>) -> (r: SaveData)
        ensures
            match parsed {
                Some(s) => normalized(s, r),
                None => is_fresh_save(r),
            },
    {
        let mut data: SaveData = match parsed {
            Some(s) => s,
            None => SaveData::default(),
        };
        let ghost before = data;
        data.normalize();
        proof {
            if parsed is None {
                assert(data.upgrade_counts@ =~= before.upgrade_counts@);
            }
        }
        data
    }

    /// Whether a map with this seed is among the favourites.
    pub fn is_favorite(&self, seed: u32) -> (r: bool)
        ensures
            r == has_favorite(self.favorite_maps@, seed),
    {
        let n: usize = self.favorite_maps.len();
        let mut i: usize = 0;
        while i < n
            invariant
                n == self.favorite_maps@.len(),
                i <= n,
                forall|j: int| 0 <= j < i ==> (#[trigger] self.favorite_maps@[j]).seed != seed,
            decreases n - i,
        {
            if self.favorite_maps[i].seed == seed {
                return true;
            }
            i = i + 1;
        }
        false
    }

    /// Removes the favourite with this seed if there is one (returns false),
    /// else appends `(seed, level)` (returns true). Nothing else changes.
    pub fn toggle_favorite(&mut self, level: usize, seed: u32) -> (r: bool)
        ensures
            r == !has_favorite(old(self).favorite_maps@, seed),
            r ==> has_favorite(final(self).favorite_maps@, seed),
            r ==> final(self).favorite_maps@ == old(self).favorite_maps@.push(FavoriteMap { seed, level }),
            !r ==> exists|i: int| 0 <= i < old(self).favorite_maps@.len()
                && old(self).favorite_maps@[i].seed == seed
                && (forall|j: int| 0 <= j < i ==> (#[trigger] old(self).favorite_maps@[j]).seed != seed)
                && final(self).favorite_maps@ == old(self).favorite_maps@.remove(i),
            final(self).total_energy == old(self).total_energy,
            final(self).total_crystals == old(self).total_crystals,
            final(self).num_scouts == old(self).num_scouts,
            final(self).num_collectors == old(self).num_collectors,
            final(self).carry_capacity == old(self).carry_capacity,
            final(self).energy_bonus == old(self).energy_bonus,
            final(self).crystal_bonus == old(self).crystal_bonus,
            final(self).wall_break_power == old(self).wall_break_power,
            final(self).upgrade_counts@ == old(self).upgrade_counts@,
    {
        let n: usize = self.favorite_maps.len();
        let mut i: usize = 0;
        while i < n
            invariant
                n == self.favorite_maps@.len(),
                self.favorite_maps@ == old(self).favorite_maps@,
                self.total_energy == old(self).total_energy,
                self.total_crystals == old(self).total_crystals,
                self.num_scouts == old(self).num_scouts,
                self.num_collectors == old(self).num_collectors,
                self.carry_capacity == old(self).carry_capacity,
                self.energy_bonus == old(self).energy_bonus,
                self.crystal_bonus == old(self).crystal_bonus,
                self.wall_break_power == old(self).wall_break_power,
                self.upgrade_counts@ == old(self).upgrade_counts@,
                i <= n,
                forall|j: int| 0 <= j < i ==> (#[trigger] self.favorite_maps@[j]).seed != seed,
            decreases n - i,
        {
            if self.favorite_maps[i].seed == seed {
                self.favorite_maps.remove(i);
                return false;
            }
            i = i + 1;
        }
        self.favorite_maps.push(FavoriteMap { seed, level });
        assert(self.favorite_maps@[self.favorite_maps@.len() - 1].seed == seed);
        true
    }
}

/// At the end of a game, the energy still available and the crystals
/// gathered join the player's totals; returns them.
pub fn bank_earnings(save: &mut SaveData, state: &SimState) -> (r: (u32, u32))
    requires
        old(save).total_energy + state.available_energy <= u32::MAX,
        old(save).total_crystals + state.collected_crystals <= u32::MAX,
    ensures
        r == (state.available_energy, state.collected_crystals),
        final(save).total_energy == old(save).total_energy + state.available_energy,
        final(save).total_crystals == old(save).total_crystals + state.collected_crystals,
        final(save).num_scouts == old(save).num_scouts,
        final(save).num_collectors == old(save).num_collectors,
        final(save).carry_capacity == old(save).carry_capacity,
        final(save).energy_bonus == old(save).energy_bonus,
        final(save).crystal_bonus == old(save).crystal_bonus,
        final(save).wall_break_power == old(save).wall_break_power,
        final(save).upgrade_counts@ == old(save).upgrade_counts@,
        final(save).favorite_maps@ == old(save).favorite_maps@,
{
    let energy: u32 = state.available_energy;
    let crystals: u32 = state.collected_crystals;
    save.total_energy = save.total_energy + energy;
    save.total_crystals = save.total_crystals + crystals;
    (energy, crystals)
}

/// Toggling a map that is not a favourite, then toggling it again, leaves the
/// favourites as they were; each toggle flips whether the seed is a favourite.
pub proof fn law_toggle_favorite_twice(favs: Seq<FavoriteMap>, level: usize, seed: u32)
    requires
        !has_favorite(favs, seed),
    ensures
        has_favorite(favs.push(FavoriteMap { seed, level }), seed),
        ({
            let once = favs.push(FavoriteMap { seed, level });
            let i = favs.len() as int;
            &&& once[i].seed == seed
            &&& (forall|j: int| 0 <= j < i ==> (#[trigger] once[j]).seed != seed)
            &&& once.remove(i) == favs
        }),
{
    let once = favs.push(FavoriteMap { seed, level });
    assert(once[favs.len() as int].seed == seed);
    assert(once.remove(favs.len() as int) =~= favs);
}

/// No two favourites share a seed.
pub open spec fn seeds_unique(favs: Seq<FavoriteMap>) -> bool {
    forall|i: int, j: int| 0 <= i < favs.len() && 0 <= j < favs.len() && i != j ==> favs[i].seed != favs[j].seed
}

/// With distinct seeds, removing the favourite of a seed leaves it no longer
/// a favourite: a toggle always flips whether the seed is a favourite.
pub proof fn law_toggle_flips(favs: Seq<FavoriteMap>, i: int, seed: u32)
    requires
        seeds_unique(favs),
        0 <= i < favs.len(),
        favs[i].seed == seed,
    ensures
        !has_favorite(favs.remove(i), seed),
        seeds_unique(favs.remove(i)),
{
    let r = favs.remove(i);
    assert forall|j: int| 0 <= j < r.len() implies (#[trigger] r[j]).seed != seed by {
        if j < i {
            assert(r[j] == favs[j]);
        } else {
            assert(r[j] == favs[j + 1]);
        }
    }
    assert forall|a: int, b: int| 0 <= a < r.len() && 0 <= b < r.len() && a != b implies r[a].seed != r[b].seed by {
        let fa = if a < i { a } else { a + 1 };
        let fb = if b < i { b } else { b + 1 };
        assert(r[a] == favs[fa]);
        assert(r[b] == favs[fb]);
    }
}

/// A normalized save has a power in `1..=3` and a counter for every store
/// item, and normalizing it again changes nothing.
pub proof fn law_normalize_settles(a: SaveData, b: SaveData, c: SaveData)
    requires
        normalized(a, b),
        normalized(b, c),
    ensures
        1 <= b.wall_break_power <= 3,
        b.upgrade_counts@.len() >= UPGRADE_SLOT_COUNT,
        c.wall_break_power == b.wall_break_power,
        c.upgrade_counts@ == b.upgrade_counts@,
        c.favorite_maps@ == b.favorite_maps@,
        c.total_energy == b.total_energy && c.total_crystals == b.total_crystals,
        c.num_scouts == b.num_scouts && c.num_collectors == b.num_collectors,
        c.carry_capacity == b.carry_capacity,
        c.energy_bonus == b.energy_bonus && c.crystal_bonus == b.crystal_bonus,
{
}

/// Normalizing brings the laser power into `1..=3`, moving it only as far as
/// needed: a power already in range is kept, one below is raised to 1 and one
/// above is lowered to 3.
pub proof fn law_normalize_keeps_power(a: SaveData, b: SaveData)
    requires
        normalized(a, b),
    ensures
        1 <= b.wall_break_power <= 3,
        1 <= a.wall_break_power <= 3 ==> b.wall_break_power == a.wall_break_power,
        a.wall_break_power < 1 ==> b.wall_break_power == 1,
        a.wall_break_power > 3 ==> b.wall_break_power == 3,
{
}

} // verus!
