use vstd::prelude::*;
use crate::map::{passability_grows, GridMap, Tile, MAX_SIDE};
use crate::pathfinding::small_pos;
use crate::pos_map::PosMap;
use crate::types::{opposite, spec_delta, Direction, Pos, Resource, ResourceKind};

verus! {

/// Energy the scout rally costs per scout that is not already at the player.
pub const SCOUT_RALLY_ENERGY_COST_PER_SCOUT: u32 = 20;

#[derive(Clone, Copy, Debug, PartialEq, Eq, Structural)]
pub enum RobotKind {
    Scout,
    Collector,
}

/// What the display needs to know of a robot.
#[derive(Clone, Copy, Debug, PartialEq, Eq, Structural)]
pub struct RobotDisplay {
    pub x: usize,
    pub y: usize,
    pub kind: RobotKind,
    pub carrying: bool,
}

/// The player's ship.
#[derive(Clone, Copy, Debug, PartialEq, Eq, Structural)]
pub struct PlayerDisplay {
    pub x: usize,
    pub y: usize,
}

/// What the base has learnt from its scouts: deposit kind and last known quantity.
pub struct BaseKnowledge {
    pub resources: PosMap<(ResourceKind, u32)>,
}

impl BaseKnowledge {
    pub fn new() -> (r: Self)
        ensures
            r.resources@ == Map::<Pos, (ResourceKind, u32)>::empty(),
    {
        BaseKnowledge { resources: PosMap::new() }
    }
}

/// The state shared by the robots, the base and the player during a game.
pub struct SimState {
    pub map: GridMap,
    /// Deposits actually on the map.
    pub resources: PosMap<Resource>,
    pub knowledge: BaseKnowledge,
    pub robots: Vec<RobotDisplay>,
    pub player: PlayerDisplay,
    /// Where the scouts gather, while the rally is on.
    pub scout_rally_pos: Option<Pos>,
    pub wall_break_power: u8,
    pub available_energy: u32,
    pub collected_energy: u32,
    pub collected_crystals: u32,
    /// Deposits that a collector has claimed.
    pub reserved: PosMap<()>,
}

/// Energy one wall-breaking shot costs at power `level`.
pub open spec fn spec_wall_break_energy_cost(level: u8) -> u32 {
    if level == 0 {
        0
    } else if level == 1 {
        50
    } else if level == 2 {
        150
    } else {
        350
    }
}

/// Energy one wall-breaking shot costs at power `level`: 0, 50, 150, then 350.
pub fn wall_break_energy_cost(level: u8) -> (r: u32)
    ensures
        r == spec_wall_break_energy_cost(level),
{
    match level {
        0 => 0,
        1 => 50,
        2 => 150,
        _ => 350,
    }
}

/// A stronger shot never costs less.
pub proof fn lemma_wall_break_cost_monotone(a: u8, b: u8)
    requires
        a <= b,
    ensures
        spec_wall_break_energy_cost(a) <= spec_wall_break_energy_cost(b),
{
}

/// A shot costs nothing without a laser, and each of the three laser tiers
/// costs twice the tier below plus 50 (50, 150, 350); beyond the third tier
/// the price stays that of the third.
pub proof fn law_wall_break_cost_tiers(level: u8)
    ensures
        spec_wall_break_energy_cost(0) == 0,
        1 <= level <= 3 ==> spec_wall_break_energy_cost(level) == 2 * spec_wall_break_energy_cost((level - 1) as u8) + 50,
        level > 3 ==> spec_wall_break_energy_cost(level) == spec_wall_break_energy_cost(3),
{
}

/// The `k`-th place tried for the player's ship, relative to the base centre.
pub open spec fn spawn_offset_spec(k: int) -> (int, int) {
    if k == 0 { (0, -2) }
    else if k == 1 { (2, 0) }
    else if k == 2 { (0, 2) }
    else if k == 3 { (-2, 0) }
    else if k == 4 { (1, -2) }
    else if k == 5 { (2, -1) }
    else if k == 6 { (2, 1) }
    else if k == 7 { (1, 2) }
    else if k == 8 { (-1, 2) }
    else if k == 9 { (-2, 1) }
    else if k == 10 { (-2, -1) }
    else { (-1, -2) }
}

/// Number of places tried for the player's ship.
pub const SPAWN_OFFSETS: usize = 12;

fn spawn_offset(k: usize) -> (r: (i64, i64))
    requires
        k < SPAWN_OFFSETS,
    ensures
        r.0 as int == spawn_offset_spec(k as int).0,
        r.1 as int == spawn_offset_spec(k as int).1,
{
    match k {
        0 => (0, -2),
        1 => (2, 0),
        2 => (0, 2),
        3 => (-2, 0),
        4 => (1, -2),
        5 => (2, -1),
        6 => (2, 1),
        7 => (1, 2),
        8 => (-1, 2),
        9 => (-2, 1),
        10 => (-2, -1),
        _ => (-1, -2),
    }
}

/// The first passable place, in offset order, from the `k`-th on; the base
/// centre when none is.
pub open spec fn spawn_from(map: GridMap, k: int) -> Pos
    decreases SPAWN_OFFSETS - k,
{
    if k >= SPAWN_OFFSETS {
        map.spec_base_pos()
    } else {
        let x = map.spec_base_pos().0 + spawn_offset_spec(k).0;
        let y = map.spec_base_pos().1 + spawn_offset_spec(k).1;
        if x >= 0 && y >= 0 && map.spec_passable(x, y) {
            (x as usize, y as usize)
        } else {
            spawn_from(map, k + 1)
        }
    }
}

/// Where the player's ship starts.
pub open spec fn spec_spawn_pos(map: GridMap) -> Pos {
    spawn_from(map, 0)
}

proof fn lemma_spawn_small(map: GridMap, k: int)
    requires
        map.wf(),
    ensures
        small_pos(spawn_from(map, k)),
    decreases SPAWN_OFFSETS - k,
{
    if k < SPAWN_OFFSETS {
        lemma_spawn_small(map, k + 1);
    }
}

/// The player's starting cell: the first passable cell among twelve places
/// around the base centre, or the centre itself.
pub fn player_spawn_pos(map: &GridMap) -> (r: Pos)
    requires
        map.wf(),
    ensures
        r == spec_spawn_pos(*map),
        small_pos(r),
{
    let base: Pos = map.base_pos();
    let mut k: usize = 0;
    proof { lemma_spawn_small(*map, 0); }
    while k < SPAWN_OFFSETS
        invariant
            map.wf(),
            base == map.spec_base_pos(),
            k <= SPAWN_OFFSETS,
            spawn_from(*map, 0) == spawn_from(*map, k as int),
        decreases SPAWN_OFFSETS - k,
    {
        let (dx, dy) = spawn_offset(k);
        let x: i64 = base.0 as i64 + dx;
        let y: i64 = base.1 as i64 + dy;
        if x >= 0 && y >= 0 {
            let p: Pos = (x as usize, y as usize);
            if map.is_passable(p.0, p.1) {
                return p;
            }
        }
        k = k + 1;
    }
    base
}

/// Number of robots of `kind` in `robots`.
pub open spec fn count_kind(robots: Seq<RobotDisplay>, kind: RobotKind) -> nat
    decreases robots.len(),
{
    if robots.len() == 0 {
        0
    } else {
        count_kind(robots.drop_last(), kind) + if robots.last().kind == kind { 1nat } else { 0nat }
    }
}

/// Number of robots in `robots` carrying a load.
pub open spec fn count_carrying(robots: Seq<RobotDisplay>) -> nat
    decreases robots.len(),
{
    if robots.len() == 0 {
        0
    } else {
        count_carrying(robots.drop_last()) + if robots.last().carrying { 1nat } else { 0nat }
    }
}

/// Number of scouts in `robots` that are not standing on `p`.
pub open spec fn scouts_away(robots: Seq<RobotDisplay>, p: Pos) -> nat
    decreases robots.len(),
{
    if robots.len() == 0 {
        0
    } else {
        scouts_away(robots.drop_last(), p) + if robots.last().kind == RobotKind::Scout
            && (robots.last().x, robots.last().y) != p { 1nat } else { 0nat }
    }
}

/// `s1` is `s0` after the rally was switched on (`active`) or off: off is
/// free; on, from off, costs the rally price when the energy covers it and
/// otherwise leaves the rally off; while on, the rally point is the player's
/// cell. Nothing else changes.
pub open spec fn rally_set(s0: SimState, s1: SimState, active: bool) -> bool {
    &&& s1.wf()
    &&& (!active ==> s1.scout_rally_pos is None && s1.available_energy == s0.available_energy)
    &&& (active && s0.scout_rally_pos is Some ==> s1.scout_rally_pos == Some(s0.spec_player_pos())
        && s1.available_energy == s0.available_energy)
    &&& (active && s0.scout_rally_pos is None && s0.available_energy >= s0.spec_rally_cost()
        ==> s1.scout_rally_pos == Some(s0.spec_player_pos())
        && s1.available_energy == s0.available_energy - s0.spec_rally_cost())
    &&& (active && s0.scout_rally_pos is None && s0.available_energy < s0.spec_rally_cost()
        ==> s1.scout_rally_pos is None && s1.available_energy == s0.available_energy)
    &&& s1.map == s0.map
    &&& s1.resources == s0.resources
    &&& s1.knowledge == s0.knowledge
    &&& s1.robots == s0.robots
    &&& s1.player == s0.player
    &&& s1.wall_break_power == s0.wall_break_power
    &&& s1.collected_energy == s0.collected_energy
    &&& s1.collected_crystals == s0.collected_crystals
    &&& s1.reserved == s0.reserved
}

/// How long a shift-modified key press keeps the rally on.
pub const RALLY_HOLD_GRACE_MS: u64 = 300;

/// The rally may be switched on without overflowing its price.
pub open spec fn rally_cost_fits(s: SimState) -> bool {
    s.scout_rally_pos is None ==> s.spec_rally_cost() <= u32::MAX
}

/// A key pressed with shift: the rally goes on and stays on for the grace
/// period from `now_ms`.
pub fn pulse_scout_rally(state: &mut SimState, rally_until: &mut Option<u64>, now_ms: u64)
    requires
        old(state).wf(),
        rally_cost_fits(*old(state)),
        now_ms + RALLY_HOLD_GRACE_MS <= u64::MAX,
    ensures
        *final(rally_until) == Some((now_ms + RALLY_HOLD_GRACE_MS) as u64),
        rally_set(*old(state), *final(state), true),
{
    *rally_until = Some(now_ms + RALLY_HOLD_GRACE_MS);
    state.set_scout_rally_active(true);
}

/// Shift held down or let go, as the terminal reports it; holding it switches
/// the rally on.
pub fn set_scout_rally_held(state: &mut SimState, rally_shift_held: &mut bool, held: bool)
    requires
        old(state).wf(),
        rally_cost_fits(*old(state)),
    ensures
        *final(rally_shift_held) == held,
        held ==> rally_set(*old(state), *final(state), true),
        !held ==> *final(state) == *old(state),
{
    *rally_shift_held = held;
    if held {
        state.set_scout_rally_active(true);
    }
}

/// The grace period that started a pulse is still running at `now_ms`.
pub open spec fn grace_running(rally_until: Option<u64>, now_ms: u64) -> bool {
    rally_until matches Some(until) && now_ms <= until
}

/// Shift let go: unless a grace period is still running, the grace period is
/// forgotten and the rally goes off.
pub fn release_scout_rally(state: &mut SimState, rally_until: &mut Option<u64>, rally_shift_held: &mut bool, now_ms: u64)
    requires
        old(state).wf(),
    ensures
        !*final(rally_shift_held),
        grace_running(*old(rally_until), now_ms) ==> *final(rally_until) == *old(rally_until) && *final(state) == *old(state),
        !grace_running(*old(rally_until), now_ms) ==> *final(rally_until) is None && rally_set(*old(state), *final(state), false),
{
    *rally_shift_held = false;
    let timed_active: bool = match *rally_until {
        Some(until) => now_ms <= until,
        None => false,
    };
    if !timed_active {
        *rally_until = None;
        state.set_scout_rally_active(false);
    }
}

/// Brings the rally up to date at `now_ms`: takes the shift state the system
/// reports, if it reports one; an expired grace period is forgotten; the rally
/// is on exactly while shift is held or a grace period runs.
pub fn refresh_scout_rally(
    state: &mut SimState,
    rally_until: &mut Option<u64>,
    rally_shift_held: &mut bool,
    shift_down: Option<bool>,
    now_ms: u64,
)
    requires
        old(state).wf(),
        rally_cost_fits(*old(state)),
    ensures
        *final(rally_shift_held) == (match shift_down {
            Some(d) => d,
            None => *old(rally_shift_held),
        }),
        *final(rally_until) == (if grace_running(*old(rally_until), now_ms) { *old(rally_until) } else { None }),
        rally_set(*old(state), *final(state), *final(rally_shift_held) || grace_running(*old(rally_until), now_ms)),
{
    match shift_down {
        Some(d) => {
            *rally_shift_held = d;
        }
        None => {}
    }
    let timed_active: bool = match *rally_until {
        Some(until) => {
            if now_ms <= until {
                true
            } else {
                *rally_until = None;
                false
            }
        }
        None => false,
    };
    state.set_scout_rally_active(*rally_shift_held || timed_active);
}

impl SimState {
    /// The map is well formed and every robot, like the player, stands where
    /// neighbour arithmetic is safe.
    pub open spec fn wf(&self) -> bool {
        &&& self.map.wf()
        &&& small_pos(self.spec_player_pos())
        &&& forall|i: int| 0 <= i < self.robots@.len()
            ==> #[trigger] small_pos((self.robots@[i].x, self.robots@[i].y))
        &&& forall|p: Pos| #[trigger] self.resources@.contains_key(p) ==> small_pos(p)
        &&& forall|p: Pos| #[trigger] self.knowledge.resources@.contains_key(p) ==> small_pos(p)
        &&& forall|p: Pos| #[trigger] self.reserved@.contains_key(p) ==> small_pos(p)
        &&& (self.scout_rally_pos matches Some(p) ==> small_pos(p))
    }

    pub open spec fn spec_player_pos(&self) -> Pos {
        (self.player.x, self.player.y)
    }

    /// Some robot stands on `p`.
    pub open spec fn spec_robot_at(&self, p: Pos) -> bool {
        exists|i: int| 0 <= i < self.robots@.len() && (#[trigger] self.robots@[i]).x == p.0 && self.robots@[i].y == p.1
    }

    /// Scouts the rally would summon: those not already at the player.
    pub open spec fn spec_attractable(&self) -> nat {
        scouts_away(self.robots@, self.spec_player_pos())
    }

    pub open spec fn spec_rally_cost(&self) -> int {
        SCOUT_RALLY_ENERGY_COST_PER_SCOUT * self.spec_attractable()
    }

    /// The cell next to `p` in direction `d`, if it lies on the map.
    pub open spec fn spec_offset(&self, p: Pos, d: Direction) -> Option<Pos> {
        let nx = p.0 + spec_delta(d).0;
        let ny = p.1 + spec_delta(d).1;
        if nx < 0 || ny < 0 || nx >= self.map.width || ny >= self.map.height {
            None
        } else {
            Some((nx as usize, ny as usize))
        }
    }

    /// A fresh game on `map`: no robot, no knowledge, no energy, the ship at its
    /// spawn cell, the wall-breaking power brought into `1..=3`.
    pub fn new(map: GridMap, resources: PosMap<Resource>, wall_break_power: u8) -> (r: Self)
        requires
            map.wf(),
            forall|p: Pos| #[trigger] resources@.contains_key(p) ==> small_pos(p),
        ensures
            r.wf(),
            r.map == map,
            r.resources@ == resources@,
            r.knowledge.resources@ == Map::<Pos, (ResourceKind, u32)>::empty(),
            r.robots@ == Seq::<RobotDisplay>::empty(),
            r.spec_player_pos() == spec_spawn_pos(map),
            r.scout_rally_pos is None,
            r.wall_break_power == (if wall_break_power < 1 { 1 } else if wall_break_power > 3 { 3 } else { wall_break_power }),
            r.available_energy == 0,
            r.collected_energy == 0,
            r.collected_crystals == 0,
            r.reserved@ == Map::<Pos, ()>::empty(),
    {
        let player_pos: Pos = player_spawn_pos(&map);
        let power: u8 = if wall_break_power < 1 { 1 } else if wall_break_power > 3 { 3 } else { wall_break_power };
        SimState {
            map,
            resources,
            knowledge: BaseKnowledge::new(),
            robots: Vec::new(),
            player: PlayerDisplay { x: player_pos.0, y: player_pos.1 },
            scout_rally_pos: None,
            wall_break_power: power,
            available_energy: 0,
            collected_energy: 0,
            collected_crystals: 0,
            reserved: PosMap::new(),
        }
    }

    /// Places `num_scouts` scouts, then `num_collectors` collectors, on the base
    /// centre, none of them carrying anything.
    pub fn spawn_robots(&mut self, num_scouts: usize, num_collectors: usize)
        requires
            old(self).wf(),
            num_scouts + num_collectors <= usize::MAX,
        ensures
            final(self).wf(),
            final(self).robots@.len() == old(self).robots@.len() + num_scouts + num_collectors,
            forall|i: int| 0 <= i < old(self).robots@.len() ==> final(self).robots@[i] == old(self).robots@[i],
            forall|i: int| 0 <= i < num_scouts + num_collectors ==> #[trigger] final(self).robots@[old(self).robots@.len() + i] == (RobotDisplay {
                x: old(self).map.spec_base_pos().0,
                y: old(self).map.spec_base_pos().1,
                kind: if i < num_scouts { RobotKind::Scout } else { RobotKind::Collector },
                carrying: false,
            }),
            final(self).map == old(self).map,
            final(self).resources == old(self).resources,
            final(self).knowledge == old(self).knowledge,
            final(self).reserved == old(self).reserved,
            final(self).player == old(self).player,
            final(self).scout_rally_pos == old(self).scout_rally_pos,
            final(self).available_energy == old(self).available_energy,
            final(self).wall_break_power == old(self).wall_break_power,
            final(self).collected_energy == old(self).collected_energy,
            final(self).collected_crystals == old(self).collected_crystals,
    {
        let base: Pos = self.map.base_pos();
        let total: usize = num_scouts + num_collectors;
        let n0: usize = self.robots.len();
        let mut i: usize = 0;
        while i < total
            invariant
                self.wf(),
                base == self.map.spec_base_pos(),
                base == old(self).map.spec_base_pos(),
                small_pos(base),
                total == num_scouts + num_collectors,
                n0 == old(self).robots@.len(),
                i <= total,
                self.robots@.len() == n0 + i,
                forall|j: int| 0 <= j < n0 ==> self.robots@[j] == old(self).robots@[j],
                forall|j: int| 0 <= j < i ==> #[trigger] self.robots@[n0 + j] == (RobotDisplay {
                    x: base.0,
                    y: base.1,
                    kind: if j < num_scouts { RobotKind::Scout } else { RobotKind::Collector },
                    carrying: false,
                }),
                self.map == old(self).map,
                self.resources == old(self).resources,
                self.knowledge == old(self).knowledge,
                self.reserved == old(self).reserved,
                self.player == old(self).player,
                self.scout_rally_pos == old(self).scout_rally_pos,
                self.available_energy == old(self).available_energy,
                self.wall_break_power == old(self).wall_break_power,
                self.collected_energy == old(self).collected_energy,
                self.collected_crystals == old(self).collected_crystals,
            decreases total - i,
        {
            let kind: RobotKind = if i < num_scouts { RobotKind::Scout } else { RobotKind::Collector };
            self.robots.push(RobotDisplay { x: base.0, y: base.1, kind, carrying: false });
            i = i + 1;
        }
    }

    /// The player's cell.
    pub fn player_pos(&self) -> (r: Pos)
        ensures
            r == self.spec_player_pos(),
    {
        (self.player.x, self.player.y)
    }

    /// Whether a robot stands on `pos`.
    pub fn robot_at(&self, pos: Pos) -> (r: bool)
        ensures
            r == self.spec_robot_at(pos),
    {
        let n: usize = self.robots.len();
        let mut i: usize = 0;
        while i < n
            invariant
                n == self.robots@.len(),
                i <= n,
                forall|j: int| 0 <= j < i ==> !((#[trigger] self.robots@[j]).x == pos.0 && self.robots@[j].y == pos.1),
            decreases n - i,
        {
            if self.robots[i].x == pos.0 && self.robots[i].y == pos.1 {
                return true;
            }
            i = i + 1;
        }
        false
    }

    /// Number of scouts not already at the player.
    fn attractable_scout_count(&self) -> (r: u32)
        requires
            self.spec_attractable() <= u32::MAX,
        ensures
            r == self.spec_attractable(),
    {
        let p: Pos = self.player_pos();
        let n: usize = self.robots.len();
        let mut count: u32 = 0;
        let mut i: usize = 0;
        while i < n
            invariant
                n == self.robots@.len(),
                p == self.spec_player_pos(),
                i <= n,
                count == scouts_away(self.robots@.subrange(0, i as int), p),
                self.spec_attractable() <= u32::MAX,
            decreases n - i,
        {
            let r: RobotDisplay = self.robots[i];
            proof {
                assert(self.robots@.subrange(0, i + 1).drop_last() =~= self.robots@.subrange(0, i as int));
                lemma_scouts_away_prefix(self.robots@, p, i as int + 1);
            }
            proof { lemma_scouts_away_prefix_le(self.robots@, p, i as int + 1); }
            if r.kind == RobotKind::Scout && !(r.x == p.0 && r.y == p.1) {
                count = count + 1;
            }
            i = i + 1;
        }
        proof { assert(self.robots@.subrange(0, n as int) =~= self.robots@); }
        count
    }

    /// Energy the rally costs now: a fixed amount per scout away from the player.
    pub fn scout_rally_energy_cost(&self) -> (r: u32)
        requires
            self.spec_rally_cost() <= u32::MAX,
        ensures
            r == self.spec_rally_cost(),
    {
        SCOUT_RALLY_ENERGY_COST_PER_SCOUT * self.attractable_scout_count()
    }

    /// Energy one wall-breaking shot costs at the current power.
    pub fn wall_break_energy_cost(&self) -> (r: u32)
        ensures
            r == spec_wall_break_energy_cost(self.wall_break_power),
    {
        wall_break_energy_cost(self.wall_break_power)
    }

    /// Switches the scout rally on or off. Switching it off is free. Switching it
    /// on while it is off costs the rally price, and fails (the rally stays
    /// off) when the energy does not cover it; while on, the rally point is the
    /// player's cell.
    pub fn set_scout_rally_active(&mut self, active: bool)
        requires
            old(self).wf(),
            active && old(self).scout_rally_pos is None ==> old(self).spec_rally_cost() <= u32::MAX,
        ensures
            rally_set(*old(self), *final(self), active),
    {
        if !active {
            self.scout_rally_pos = None;
            return;
        }
        let player_pos: Pos = self.player_pos();
        if self.scout_rally_pos.is_none() {
            let cost: u32 = self.scout_rally_energy_cost();
            if self.available_energy < cost {
                self.scout_rally_pos = None;
                return;
            }
            self.available_energy = self.available_energy - cost;
        }
        self.scout_rally_pos = Some(player_pos);
    }

    /// Moves the ship one cell in `direction` when that cell is on the map,
    /// passable and free of robots; an active rally point follows the ship.
    /// Returns whether the ship moved.
    pub fn move_player(&mut self, direction: Direction) -> (r: bool)
        requires
            old(self).wf(),
        ensures
            final(self).wf(),
            r == (old(self).spec_offset(old(self).spec_player_pos(), direction) matches Some(t)
                && old(self).map.spec_passable(t.0 as int, t.1 as int) && !old(self).spec_robot_at(t)),
            r ==> ({
                let t = old(self).spec_offset(old(self).spec_player_pos(), direction).unwrap();
                &&& final(self).spec_player_pos() == t
                &&& final(self).scout_rally_pos == (if old(self).scout_rally_pos is Some { Some(t) } else { None })
            }),
            !r ==> final(self).player == old(self).player && final(self).scout_rally_pos == old(self).scout_rally_pos,
            final(self).map == old(self).map,
            final(self).resources == old(self).resources,
            final(self).knowledge == old(self).knowledge,
            final(self).robots == old(self).robots,
            final(self).wall_break_power == old(self).wall_break_power,
            final(self).available_energy == old(self).available_energy,
            final(self).collected_energy == old(self).collected_energy,
            final(self).collected_crystals == old(self).collected_crystals,
            final(self).reserved == old(self).reserved,
    {
        let target: Option<Pos> = self.offset_from(self.player_pos(), direction);
        let (nx, ny) = match target {
            Some(t) => t,
            None => {
                return false;
            }
        };
        if !self.map.is_passable(nx, ny) {
            return false;
        }
        if self.robot_at((nx, ny)) {
            return false;
        }
        self.player.x = nx;
        self.player.y = ny;
        if self.scout_rally_pos.is_some() {
            self.scout_rally_pos = Some((nx, ny));
        }
        true
    }

    /// Fires at the cell next to the ship in `direction`: when that cell is a
    /// wall on the map, the power is not zero and the energy covers the shot,
    /// the wall loses `wall_break_power` durability and the shot is paid.
    /// Returns whether a wall was hit.
    pub fn damage_wall_from_player(&mut self, direction: Direction) -> (r: bool)
        requires
            old(self).wf(),
        ensures
            final(self).wf(),
            r == (old(self).spec_offset(old(self).spec_player_pos(), direction) matches Some(t)
                && old(self).wall_break_power != 0
                && old(self).available_energy >= spec_wall_break_energy_cost(old(self).wall_break_power)
                && old(self).map.tile(t.0 as int, t.1 as int) is Obstacle),
            r ==> ({
                let t = old(self).spec_offset(old(self).spec_player_pos(), direction).unwrap();
                &&& final(self).available_energy == old(self).available_energy
                    - spec_wall_break_energy_cost(old(self).wall_break_power)
                &&& final(self).map.width == old(self).map.width
                &&& final(self).map.height == old(self).map.height
                &&& forall|a: int, b: int| #![trigger final(self).map.tile(a, b)]
                    final(self).map.in_bounds(a, b) ==> final(self).map.tile(a, b) == (
                        if a == t.0 && b == t.1 {
                            crate::map::spec_damaged(old(self).map.tile(a, b), old(self).wall_break_power)
                        } else {
                            old(self).map.tile(a, b)
                        })
            }),
            !r ==> final(self).map == old(self).map && final(self).available_energy == old(self).available_energy,
            passability_grows(old(self).map, final(self).map),
            final(self).resources == old(self).resources,
            final(self).knowledge == old(self).knowledge,
            final(self).robots == old(self).robots,
            final(self).player == old(self).player,
            final(self).scout_rally_pos == old(self).scout_rally_pos,
            final(self).wall_break_power == old(self).wall_break_power,
            final(self).collected_energy == old(self).collected_energy,
            final(self).collected_crystals == old(self).collected_crystals,
            final(self).reserved == old(self).reserved,
    {
        let target: Option<Pos> = self.offset_from(self.player_pos(), direction);
        let (tx, ty) = match target {
            Some(t) => t,
            None => {
                return false;
            }
        };
        if self.wall_break_power == 0 {
            return false;
        }
        let cost: u32 = self.wall_break_energy_cost();
        if self.available_energy < cost {
            return false;
        }
        if self.map.damage_wall(tx, ty, self.wall_break_power) {
            self.available_energy = self.available_energy - cost;
            true
        } else {
            false
        }
    }

    /// How many scouts, how many collectors, and how many robots carrying a
    /// load there are, for the status bar.
    pub fn robot_counts(&self) -> (r: (usize, usize, usize))
        ensures
            r.0 == count_kind(self.robots@, RobotKind::Scout),
            r.1 == count_kind(self.robots@, RobotKind::Collector),
            r.2 == count_carrying(self.robots@),
    {
        let n: usize = self.robots.len();
        let mut scouts: usize = 0;
        let mut collectors: usize = 0;
        let mut carrying: usize = 0;
        let mut i: usize = 0;
        while i < n
            invariant
                n == self.robots@.len(),
                i <= n,
                scouts == count_kind(self.robots@.subrange(0, i as int), RobotKind::Scout),
                collectors == count_kind(self.robots@.subrange(0, i as int), RobotKind::Collector),
                carrying == count_carrying(self.robots@.subrange(0, i as int)),
                scouts <= i && collectors <= i && carrying <= i,
            decreases n - i,
        {
            let r: RobotDisplay = self.robots[i];
            proof {
                assert(self.robots@.subrange(0, i + 1).drop_last() =~= self.robots@.subrange(0, i as int));
            }
            match r.kind {
                RobotKind::Scout => {
                    scouts = scouts + 1;
                }
                RobotKind::Collector => {
                    collectors = collectors + 1;
                }
            }
            if r.carrying {
                carrying = carrying + 1;
            }
            i = i + 1;
        }
        proof {
            assert(self.robots@.subrange(0, n as int) =~= self.robots@);
        }
        (scouts, collectors, carrying)
    }

    /// The cell next to `pos` in `direction`, if it lies on the map.
    fn offset_from(&self, pos: Pos, direction: Direction) -> (r: Option<Pos>)
        requires
            self.map.wf(),
            small_pos(pos),
        ensures
            r == self.spec_offset(pos, direction),
    {
        let (dx, dy) = direction.delta();
        let nx: i64 = pos.0 as i64 + dx as i64;
        let ny: i64 = pos.1 as i64 + dy as i64;
        if nx < 0 || ny < 0 || nx >= self.map.width as i64 || ny >= self.map.height as i64 {
            None
        } else {
            Some((nx as usize, ny as usize))
        }
    }
}

/// What the display shows on a cell, by precedence: the ship, then a robot,
/// then a deposit, then the terrain.
#[derive(Clone, Copy, Debug, PartialEq, Eq, Structural)]
pub enum CellView {
    Ship,
    Robot { kind: RobotKind, carrying: bool },
    Deposit(ResourceKind),
    Terrain(Tile),
}

/// Robot `i` is the first robot standing on `p`.
pub open spec fn first_robot_at(robots: Seq<RobotDisplay>, p: Pos, i: int) -> bool {
    &&& 0 <= i < robots.len()
    &&& robots[i].x == p.0 && robots[i].y == p.1
    &&& forall|j: int| 0 <= j < i ==> !((#[trigger] robots[j]).x == p.0 && robots[j].y == p.1)
}

impl SimState {
    /// What cell `(x, y)` shows: the ship if it is there, else the first robot
    /// standing there, else the deposit there, else the tile.
    pub fn cell_view(&self, x: usize, y: usize) -> (r: CellView)
        requires
            self.map.wf(),
            self.map.in_bounds(x as int, y as int),
        ensures
            self.spec_player_pos() == (x, y) ==> r == CellView::Ship,
            self.spec_player_pos() != (x, y) && self.spec_robot_at((x, y)) ==> exists|i: int|
                #[trigger] first_robot_at(self.robots@, (x, y), i)
                && r == (CellView::Robot { kind: self.robots@[i].kind, carrying: self.robots@[i].carrying }),
            self.spec_player_pos() != (x, y) && !self.spec_robot_at((x, y)) && self.resources@.contains_key((x, y))
                ==> r == CellView::Deposit(self.resources@[(x, y)].kind),
            self.spec_player_pos() != (x, y) && !self.spec_robot_at((x, y)) && !self.resources@.contains_key((x, y))
                ==> r == CellView::Terrain(self.map.tile(x as int, y as int)),
    {
        if self.player.x == x && self.player.y == y {
            return CellView::Ship;
        }
        let n: usize = self.robots.len();
        let mut i: usize = 0;
        while i < n
            invariant
                n == self.robots@.len(),
                i <= n,
                self.spec_player_pos() != (x, y),
                forall|j: int| 0 <= j < i ==> !((#[trigger] self.robots@[j]).x == x && self.robots@[j].y == y),
            decreases n - i,
        {
            let r: RobotDisplay = self.robots[i];
            if r.x == x && r.y == y {
                assert(first_robot_at(self.robots@, (x, y), i as int));
                return CellView::Robot { kind: r.kind, carrying: r.carrying };
            }
            i = i + 1;
        }
        match self.resources.get((x, y)) {
            Some(res) => CellView::Deposit(res.kind),
            None => CellView::Terrain(self.map.tiles[y][x]),
        }
    }
}

proof fn lemma_scouts_away_prefix(robots: Seq<RobotDisplay>, p: Pos, k: int)
    requires
        1 <= k <= robots.len(),
    ensures
        scouts_away(robots.subrange(0, k), p) == scouts_away(robots.subrange(0, k - 1), p) + if robots[k - 1].kind
            == RobotKind::Scout && (robots[k - 1].x, robots[k - 1].y) != p { 1nat } else { 0nat },
{
    assert(robots.subrange(0, k).drop_last() =~= robots.subrange(0, k - 1));
}

proof fn lemma_scouts_away_prefix_le(robots: Seq<RobotDisplay>, p: Pos, k: int)
    requires
        0 <= k <= robots.len(),
    ensures
        scouts_away(robots.subrange(0, k), p) <= scouts_away(robots, p),
    decreases robots.len(),
{
    if k == robots.len() {
        assert(robots.subrange(0, k) =~= robots);
    } else {
        lemma_scouts_away_prefix_le(robots.drop_last(), p, k);
        assert(robots.drop_last().subrange(0, k) =~= robots.subrange(0, k));
    }
}

/// A move can be undone: the cell the ship left lies in the opposite direction
/// of the cell it reached.
pub proof fn law_move_reversible(s: SimState, d: Direction)
    requires
        s.wf(),
        s.map.in_bounds(s.player.x as int, s.player.y as int),
        s.spec_offset(s.spec_player_pos(), d) is Some,
    ensures
        s.spec_offset(s.spec_offset(s.spec_player_pos(), d).unwrap(), opposite(d)) == Some(s.spec_player_pos()),
{
}

proof fn lemma_spawn_from_passable_or_base(map: GridMap, k: int)
    requires
        map.wf(),
    ensures
        spawn_from(map, k) == map.spec_base_pos()
            || map.spec_passable(spawn_from(map, k).0 as int, spawn_from(map, k).1 as int),
    decreases SPAWN_OFFSETS - k,
{
    if k < SPAWN_OFFSETS {
        lemma_spawn_from_passable_or_base(map, k + 1);
    }
}

/// The ship starts on a passable cell near the base, or on the base centre
/// when none of those is passable.
pub proof fn law_spawn_passable_or_base(map: GridMap)
    requires
        map.wf(),
    ensures
        spec_spawn_pos(map) == map.spec_base_pos()
            || map.spec_passable(spec_spawn_pos(map).0 as int, spec_spawn_pos(map).1 as int),
{
    lemma_spawn_from_passable_or_base(map, 0);
}

/// Switching the rally on while it is already on costs nothing; switching it
/// on from off never spends more than the rally price.
pub proof fn law_rally_charged_once(s0: SimState, s1: SimState)
    requires
        rally_set(s0, s1, true),
    ensures
        s0.scout_rally_pos is Some ==> s1.available_energy == s0.available_energy,
        s1.available_energy <= s0.available_energy,
        s0.available_energy - s1.available_energy <= s0.spec_rally_cost(),
{
}

} // verus!
