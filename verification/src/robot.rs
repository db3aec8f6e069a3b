use vstd::prelude::*;
use crate::rng::{Draw, RobotRng};
use crate::config::Priority;
use crate::map::{generated_tile, passability_grows, GridMap, Tile};
use crate::message::Message;
use crate::pathfinding::{
    adjacent, bfs, first_shortest_route, is_route, lemma_neighbors_spec, neighbors_spec, passable_at, passable_neighbors,
    reachable, small_pos,
};
use crate::simulation::RobotDisplay;
use crate::pos_map::PosMap;
use crate::rng::thread_rng_below;
use crate::simulation::SimState;
use crate::types::{Pos, Resource, ResourceKind};

verus! {

/// Manhattan distance.
pub open spec fn spec_manhattan(a: Pos, b: Pos) -> int {
    (if a.0 >= b.0 { a.0 - b.0 } else { b.0 - a.0 }) + (if a.1 >= b.1 { a.1 - b.1 } else { b.1 - a.1 })
}

/// Manhattan distance between two cells.
pub fn manhattan(a: Pos, b: Pos) -> (r: i32)
    requires
        small_pos(a),
        small_pos(b),
    ensures
        r == spec_manhattan(a, b),
{
    let dx: i32 = if a.0 >= b.0 { (a.0 - b.0) as i32 } else { (b.0 - a.0) as i32 };
    let dy: i32 = if a.1 >= b.1 { (a.1 - b.1) as i32 } else { (b.1 - a.1) as i32 };
    dx + dy
}

/// `log1` is `log0` and one more request: an index into `choices`, which
/// picked `chosen`.
pub open spec fn picked(log0: Seq<Draw>, log1: Seq<Draw>, choices: Seq<Pos>, chosen: Pos) -> bool {
    exists|k: usize|
        #![trigger log0.push(Draw::Below { n: choices.len() as usize, r: k })]
        k < choices.len() && choices[k as int] == chosen && log1 == log0.push(Draw::Below { n: choices.len() as usize, r: k })
}

/// A cell other than `blocked` that nobody stands on.
pub open spec fn detour_pred(blocked: Pos, occupied: Map<Pos, ()>) -> spec_fn(Pos) -> bool {
    |q: Pos| q != blocked && !occupied.contains_key(q)
}

/// A cell nobody stands on.
pub open spec fn free_pred(occupied: Map<Pos, ()>) -> spec_fn(Pos) -> bool {
    |q: Pos| !occupied.contains_key(q)
}

/// A cell at distance `d` from `goal`.
pub open spec fn distance_pred(goal: Pos, d: int) -> spec_fn(Pos) -> bool {
    |q: Pos| spec_manhattan(q, goal) == d
}

/// A cell visited `c` times.
pub open spec fn visits_pred(visits: Map<Pos, u32>, c: int) -> spec_fn(Pos) -> bool {
    |q: Pos| visit_count(visits, q) == c
}

/// The passable neighbours of `pos` other than `blocked` that nobody stands
/// on, in move order.
pub open spec fn detours(map: GridMap, pos: Pos, blocked: Pos, occupied: Map<Pos, ()>) -> Seq<Pos> {
    neighbors_spec(map, pos).filter(detour_pred(blocked, occupied))
}

/// The passable neighbours of `pos` that nobody stands on, in move order.
pub open spec fn free_cells(map: GridMap, pos: Pos, occupied: Map<Pos, ()>) -> Seq<Pos> {
    neighbors_spec(map, pos).filter(free_pred(occupied))
}

/// `p` is taken by the player or by a robot other than `self_idx`.
pub open spec fn spec_occupied(s: SimState, self_idx: int, p: Pos) -> bool {
    ||| p == s.spec_player_pos()
    ||| exists|i: int| 0 <= i < s.robots@.len() && i != self_idx
        && (#[trigger] s.robots@[i]).x == p.0 && s.robots@[i].y == p.1
}

/// The cells of the player and of every robot but `self_idx`.
pub fn occupied_by_others(s: &SimState, self_idx: usize) -> (r: PosMap<()>)
    ensures
        forall|p: Pos| #[trigger] r@.contains_key(p) <==> spec_occupied(*s, self_idx as int, p),
{
    let mut occupied: PosMap<()> = PosMap::new();
    let n: usize = s.robots.len();
    let mut i: usize = 0;
    while i < n
        invariant
            n == s.robots@.len(),
            i <= n,
            forall|p: Pos| #[trigger] occupied@.contains_key(p) <==> exists|j: int| 0 <= j < i && j != self_idx
                && (#[trigger] s.robots@[j]).x == p.0 && s.robots@[j].y == p.1,
        decreases n - i,
    {
        if i != self_idx {
            let r = s.robots[i];
            occupied.insert((r.x, r.y), ());
            proof {
                assert forall|p: Pos| #[trigger] occupied@.contains_key(p) <==> exists|j: int| 0 <= j < i + 1 && j != self_idx
                    && (#[trigger] s.robots@[j]).x == p.0 && s.robots@[j].y == p.1 by {
                    if p == (r.x, r.y) {
                        assert(s.robots@[i as int].x == p.0);
                    }
                }
            }
        } else {
            proof {
                assert forall|p: Pos| #[trigger] occupied@.contains_key(p) <==> exists|j: int| 0 <= j < i + 1 && j != self_idx
                    && (#[trigger] s.robots@[j]).x == p.0 && s.robots@[j].y == p.1 by {
                    if exists|j: int| 0 <= j < i + 1 && j != self_idx && (#[trigger] s.robots@[j]).x == p.0 && s.robots@[j].y == p.1 {
                        let j = choose|j: int| 0 <= j < i + 1 && j != self_idx && (#[trigger] s.robots@[j]).x == p.0 && s.robots@[j].y == p.1;
                        assert(j < i);
                    }
                }
            }
        }
        i = i + 1;
    }
    occupied.insert(s.player_pos(), ());
    occupied
}

/// `q` is a way round: a passable neighbour of `pos`, not the blocked cell and
/// not taken.
pub open spec fn is_detour(map: GridMap, pos: Pos, blocked: Pos, occupied: Map<Pos, ()>, q: Pos) -> bool {
    &&& neighbors_spec(map, pos).contains(q)
    &&& q != blocked
    &&& !occupied.contains_key(q)
}

/// When the next step of `path` is blocked, moves to a free passable neighbour
/// (other than the blocked cell) that is closest to `goal`, picked at random
/// among the closest, and drops the path so it is planned again. Returns false,
/// changing nothing, when the path is empty or no neighbour is free.
pub fn step_aside(
    map: &GridMap,
    pos: &mut Pos,
    path: &mut Vec<Pos>,
    goal: Pos,
    occupied: &PosMap<()>,
    rng: &mut RobotRng,
) -> (r: bool)
    requires
        map.wf(),
        small_pos(*old(pos)),
        small_pos(goal),
    ensures
        old(path)@.len() == 0 ==> !r,
        old(path)@.len() > 0 ==> (r <==> exists|q: Pos| #[trigger] is_detour(*map, *old(pos), old(path)@[0], occupied@, q)),
        r ==> final(path)@.len() == 0,
        r ==> is_detour(*map, *old(pos), old(path)@[0], occupied@, *final(pos)),
        r ==> forall|q: Pos| #[trigger] is_detour(*map, *old(pos), old(path)@[0], occupied@, q)
            ==> spec_manhattan(*final(pos), goal) <= spec_manhattan(q, goal),
        !r ==> *final(pos) == *old(pos) && final(path)@ == old(path)@,
        r ==> picked(
            old(rng).log(),
            final(rng).log(),
            detours(*map, *old(pos), old(path)@[0], occupied@).filter(distance_pred(goal, spec_manhattan(*final(pos), goal))),
            *final(pos),
        ),
        !r ==> final(rng).log() == old(rng).log(),
        small_pos(*final(pos)),
{
    if path.len() == 0 {
        return false;
    }
    let blocked: Pos = path[0];
    let here: Pos = *pos;
    let neighbors: Vec<Pos> = passable_neighbors(map, here);
    proof { lemma_neighbors_spec(*map, here); }
    let mut alternatives: Vec<Pos> = Vec::new();
    let mut i: usize = 0;
    while i < neighbors.len()
        invariant
            map.wf(),
            small_pos(here),
            neighbors@ == neighbors_spec(*map, here),
            i <= neighbors@.len(),
            forall|q: Pos| #[trigger] alternatives@.contains(q) <==> exists|j: int| 0 <= j < i && neighbors@[j] == q
                && q != blocked && !occupied@.contains_key(q),
            alternatives@ == neighbors@.subrange(0, i as int).filter(detour_pred(blocked, occupied@)),
        decreases neighbors@.len() - i,
    {
        let q: Pos = neighbors[i];
        let ok: bool = !(q.0 == blocked.0 && q.1 == blocked.1) && !occupied.contains_key(q);
        let ghost prev = alternatives@;
        if ok {
            alternatives.push(q);
        }
        proof {
            assert(neighbors@.subrange(0, i + 1) =~= neighbors@.subrange(0, i as int).push(q));
            neighbors@.subrange(0, i as int).lemma_filter_push(q, detour_pred(blocked, occupied@));
            assert(ok == (q != blocked && !occupied@.contains_key(q)));
            assert forall|q2: Pos| #[trigger] alternatives@.contains(q2) <==> exists|j: int| 0 <= j < i + 1 && neighbors@[j] == q2
                && q2 != blocked && !occupied@.contains_key(q2) by {
                if alternatives@.contains(q2) {
                    let k = choose|k: int| 0 <= k < alternatives@.len() && alternatives@[k] == q2;
                    if k < prev.len() {
                        assert(prev.contains(q2));
                    } else {
                        assert(neighbors@[i as int] == q2);
                    }
                }
                if exists|j: int| 0 <= j < i + 1 && neighbors@[j] == q2 && q2 != blocked && !occupied@.contains_key(q2) {
                    let j = choose|j: int| 0 <= j < i + 1 && neighbors@[j] == q2 && q2 != blocked && !occupied@.contains_key(q2);
                    if j < i {
                        assert(prev.contains(q2));
                        let k = choose|k: int| 0 <= k < prev.len() && prev[k] == q2;
                        assert(alternatives@[k] == q2);
                    } else {
                        assert(alternatives@[alternatives@.len() - 1] == q2);
                    }
                }
            }
        }
        i = i + 1;
    }
    assert(neighbors@.subrange(0, neighbors@.len() as int) =~= neighbors@);
    assert(alternatives@ == detours(*map, here, blocked, occupied@));
    assert forall|q: Pos| #[trigger] alternatives@.contains(q) <==> is_detour(*map, here, blocked, occupied@, q) by {
        if is_detour(*map, here, blocked, occupied@, q) {
            let j = choose|j: int| 0 <= j < neighbors@.len() && neighbors@[j] == q;
        }
    }
    if alternatives.len() == 0 {
        proof {
            assert forall|q: Pos| !is_detour(*map, here, blocked, occupied@, q) by {
                if is_detour(*map, here, blocked, occupied@, q) {
                    assert(alternatives@.contains(q));
                }
            }
        }
        return false;
    }
    // the smallest distance to the goal among the alternatives
    assert(alternatives@.contains(alternatives@[0]));
    let mut min_d: i32 = manhattan(alternatives[0], goal);
    let mut j: usize = 1;
    while j < alternatives.len()
        invariant
            1 <= j <= alternatives@.len(),
            small_pos(goal),
            forall|q: Pos| #[trigger] alternatives@.contains(q) ==> small_pos(q),
            exists|k: int| 0 <= k < j && spec_manhattan(alternatives@[k], goal) == min_d,
            forall|k: int| 0 <= k < j ==> min_d <= spec_manhattan(#[trigger] alternatives@[k], goal),
        decreases alternatives@.len() - j,
    {
        assert(alternatives@.contains(alternatives@[j as int]));
        let d: i32 = manhattan(alternatives[j], goal);
        if d < min_d {
            min_d = d;
        }
        j = j + 1;
    }
    let mut tied: Vec<Pos> = Vec::new();
    let mut k: usize = 0;
    while k < alternatives.len()
        invariant
            k <= alternatives@.len(),
            small_pos(goal),
            forall|q: Pos| #[trigger] alternatives@.contains(q) ==> small_pos(q),
            forall|m: int| 0 <= m < tied@.len() ==> alternatives@.contains(#[trigger] tied@[m])
                && spec_manhattan(tied@[m], goal) == min_d,
            exists|m: int| 0 <= m < alternatives@.len() && spec_manhattan(alternatives@[m], goal) == min_d,
            (exists|m: int| 0 <= m < k && spec_manhattan(alternatives@[m], goal) == min_d) ==> tied@.len() > 0,
            tied@ == alternatives@.subrange(0, k as int).filter(distance_pred(goal, min_d as int)),
            tied@.len() <= k,
        decreases alternatives@.len() - k,
    {
        assert(alternatives@.contains(alternatives@[k as int]));
        let q: Pos = alternatives[k];
        proof {
            assert(alternatives@.subrange(0, k + 1) =~= alternatives@.subrange(0, k as int).push(q));
            alternatives@.subrange(0, k as int).lemma_filter_push(q, distance_pred(goal, min_d as int));
        }
        if manhattan(q, goal) == min_d {
            tied.push(q);
            assert(tied@[tied@.len() - 1] == q);
        }
        k = k + 1;
    }
    assert(alternatives@.subrange(0, alternatives@.len() as int) =~= alternatives@);
    let ghost log0 = rng.log();
    let pick: usize = thread_rng_below(rng, tied.len());
    let chosen: Pos = tied[pick];
    path.clear();
    *pos = chosen;
    proof {
        assert(spec_manhattan(chosen, goal) == min_d);
        assert(rng.log() == log0.push(Draw::Below { n: tied@.len() as usize, r: pick }));
        assert(alternatives@.contains(chosen));
        assert forall|q: Pos| #[trigger] is_detour(*map, here, blocked, occupied@, q)
            implies spec_manhattan(chosen, goal) <= spec_manhattan(q, goal) by {
            assert(alternatives@.contains(q));
            let m = choose|m: int| 0 <= m < alternatives@.len() && alternatives@[m] == q;
        }
    }
    true
}

/// `p` is a deposit the base knows of (`known`), still on the map (`present`)
/// and claimed by nobody (`reserved`).
pub open spec fn is_candidate(
    known: Map<Pos, (ResourceKind, u32)>,
    present: Map<Pos, Resource>,
    reserved: Map<Pos, ()>,
    p: Pos,
) -> bool {
    &&& known.contains_key(p)
    &&& present.contains_key(p)
    &&& !reserved.contains_key(p)
}

/// The kind a strategy goes for first.
pub open spec fn preferred_kind(priority: Priority) -> Option<ResourceKind> {
    match priority {
        Priority::Nearest => None,
        Priority::Energy => Some(ResourceKind::Energy),
        Priority::Crystal => Some(ResourceKind::Crystal),
    }
}

/// `p` is a candidate whose known kind is `kind`.
pub open spec fn is_candidate_of(
    known: Map<Pos, (ResourceKind, u32)>,
    present: Map<Pos, Resource>,
    reserved: Map<Pos, ()>,
    p: Pos,
    kind: ResourceKind,
) -> bool {
    is_candidate(known, present, reserved, p) && known[p].0 == kind
}

/// `t` is a target `best_target` may choose from `pos`: the nearest candidate
/// of the preferred kind when there is one, else the nearest candidate.
pub open spec fn is_best_target(
    known: Map<Pos, (ResourceKind, u32)>,
    present: Map<Pos, Resource>,
    reserved: Map<Pos, ()>,
    pos: Pos,
    priority: Priority,
    t: Pos,
) -> bool {
    &&& is_candidate(known, present, reserved, t)
    &&& match preferred_kind(priority) {
        Some(k) => if exists|c: Pos| #[trigger] is_candidate_of(known, present, reserved, c, k) {
            &&& known[t].0 == k
            &&& forall|c: Pos| #[trigger] is_candidate_of(known, present, reserved, c, k)
                ==> spec_manhattan(pos, t) <= spec_manhattan(pos, c)
        } else {
            forall|c: Pos| #[trigger] is_candidate(known, present, reserved, c)
                ==> spec_manhattan(pos, t) <= spec_manhattan(pos, c)
        },
        None => forall|c: Pos| #[trigger] is_candidate(known, present, reserved, c)
            ==> spec_manhattan(pos, t) <= spec_manhattan(pos, c),
    }
}

/// The deposit a collector at `pos` should head for: among known deposits that
/// are still there and unclaimed, the nearest one of the preferred kind if any,
/// else the nearest one. `None` when there is no such deposit. Ties are broken
/// by the order in which the base stores its knowledge.
pub fn best_target(s: &SimState, pos: Pos, priority: &Priority) -> (r: Option<Pos>)
    requires
        s.wf(),
        small_pos(pos),
    ensures
        r is None <==> !exists|c: Pos| #[trigger] is_candidate(s.knowledge.resources@, s.resources@, s.reserved@, c),
        r matches Some(t) ==> is_best_target(s.knowledge.resources@, s.resources@, s.reserved@, pos, *priority, t),
{
    let keys: Vec<Pos> = s.knowledge.resources.keys();
    let want: Option<ResourceKind> = match priority {
        Priority::Nearest => None,
        Priority::Energy => Some(ResourceKind::Energy),
        Priority::Crystal => Some(ResourceKind::Crystal),
    };
    let mut best_any: Option<(Pos, i32)> = None;
    let mut best_pref: Option<(Pos, i32)> = None;
    let n: usize = keys.len();
    let mut i: usize = 0;
    while i < n
        invariant
            s.wf(),
            small_pos(pos),
            n == keys@.len(),
            i <= n,
            want == preferred_kind(*priority),
            forall|p: Pos| #[trigger] keys@.contains(p) <==> s.knowledge.resources@.contains_key(p),
            match best_any {
                Some((t, d)) => is_candidate(s.knowledge.resources@, s.resources@, s.reserved@, t) && d == spec_manhattan(pos, t)
                    && forall|j: int| 0 <= j < i && is_candidate(s.knowledge.resources@, s.resources@, s.reserved@, #[trigger] keys@[j]) ==> d <= spec_manhattan(pos, keys@[j]),
                None => forall|j: int| 0 <= j < i ==> !is_candidate(s.knowledge.resources@, s.resources@, s.reserved@, #[trigger] keys@[j]),
            },
            match want {
                Some(k) => match best_pref {
                    Some((t, d)) => is_candidate_of(s.knowledge.resources@, s.resources@, s.reserved@, t, k) && d == spec_manhattan(pos, t)
                        && forall|j: int| 0 <= j < i && is_candidate_of(s.knowledge.resources@, s.resources@, s.reserved@, #[trigger] keys@[j], k) ==> d <= spec_manhattan(pos, keys@[j]),
                    None => forall|j: int| 0 <= j < i ==> !is_candidate_of(s.knowledge.resources@, s.resources@, s.reserved@, #[trigger] keys@[j], k),
                },
                None => best_pref is None,
            },
        decreases n - i,
    {
        let p: Pos = keys[i];
        assert(keys@.contains(p));
        if s.resources.contains_key(p) && !s.reserved.contains_key(p) {
            let d: i32 = manhattan(pos, p);
            match best_any {
                Some((_, bd)) => {
                    if d < bd {
                        best_any = Some((p, d));
                    }
                }
                None => {
                    best_any = Some((p, d));
                }
            }
            match want {
                Some(k) => {
                    let known: Option<(ResourceKind, u32)> = s.knowledge.resources.get(p);
                    match known {
                        Some((kind, _)) => {
                            if kind == k {
                                match best_pref {
                                    Some((_, bd)) => {
                                        if d < bd {
                                            best_pref = Some((p, d));
                                        }
                                    }
                                    None => {
                                        best_pref = Some((p, d));
                                    }
                                }
                            }
                        }
                        None => {}
                    }
                }
                None => {}
            }
        }
        i = i + 1;
    }
    proof {
        assert forall|c: Pos| #[trigger] is_candidate(s.knowledge.resources@, s.resources@, s.reserved@, c) implies exists|j: int| 0 <= j < n && keys@[j] == c by {
            assert(keys@.contains(c));
        }
    }
    let chosen: Option<(Pos, i32)> = match best_pref {
        Some(b) => Some(b),
        None => best_any,
    };
    match chosen {
        Some((t, _)) => Some(t),
        None => None,
    }
}

/// Applies one robot report to the base: a discovery is recorded unless the
/// deposit is already known; a delivery adds to the collected totals (energy
/// also to the energy available to the player) and lowers the known quantity,
/// forgetting the deposit when nothing is left; an exhausted deposit is
/// forgotten.
pub fn base_processor(s: &mut SimState, msg: Message)
    requires
        old(s).wf(),
        msg matches Message::ResourceDiscovered { pos, .. } ==> small_pos(pos),
        msg matches Message::ResourceCollected { kind, amount, .. } ==> match kind {
            ResourceKind::Energy => old(s).collected_energy + amount <= u32::MAX
                && old(s).available_energy + amount <= u32::MAX,
            ResourceKind::Crystal => old(s).collected_crystals + amount <= u32::MAX,
        },
    ensures
        final(s).wf(),
        match msg {
            Message::ResourceDiscovered { pos, kind, quantity } => {
                &&& final(s).knowledge.resources@ == (if old(s).knowledge.resources@.contains_key(pos) {
                    old(s).knowledge.resources@
                } else {
                    old(s).knowledge.resources@.insert(pos, (kind, quantity))
                })
                &&& final(s).collected_energy == old(s).collected_energy
                &&& final(s).collected_crystals == old(s).collected_crystals
                &&& final(s).available_energy == old(s).available_energy
            },
            Message::ResourceCollected { pos, kind, amount } => {
                &&& final(s).knowledge.resources@ == (if !old(s).knowledge.resources@.contains_key(pos) {
                    old(s).knowledge.resources@
                } else if old(s).knowledge.resources@[pos].1 <= amount {
                    old(s).knowledge.resources@.remove(pos)
                } else {
                    old(s).knowledge.resources@.insert(
                        pos,
                        (old(s).knowledge.resources@[pos].0, (old(s).knowledge.resources@[pos].1 - amount) as u32),
                    )
                })
                &&& final(s).collected_energy == old(s).collected_energy + (if kind == ResourceKind::Energy { amount } else { 0 })
                &&& final(s).available_energy == old(s).available_energy + (if kind == ResourceKind::Energy { amount } else { 0 })
                &&& final(s).collected_crystals == old(s).collected_crystals + (if kind == ResourceKind::Crystal { amount } else { 0 })
            },
            Message::ResourceDepleted { pos } => {
                &&& final(s).knowledge.resources@ == old(s).knowledge.resources@.remove(pos)
                &&& final(s).collected_energy == old(s).collected_energy
                &&& final(s).collected_crystals == old(s).collected_crystals
                &&& final(s).available_energy == old(s).available_energy
            },
        },
        final(s).map == old(s).map,
        final(s).resources == old(s).resources,
        final(s).robots == old(s).robots,
        final(s).player == old(s).player,
        final(s).scout_rally_pos == old(s).scout_rally_pos,
        final(s).wall_break_power == old(s).wall_break_power,
        final(s).reserved == old(s).reserved,
{
    match msg {
        Message::ResourceDiscovered { pos, kind, quantity } => {
            if !s.knowledge.resources.contains_key(pos) {
                s.knowledge.resources.insert(pos, (kind, quantity));
            }
        }
        Message::ResourceCollected { pos, kind, amount } => {
            match kind {
                ResourceKind::Energy => {
                    s.collected_energy = s.collected_energy + amount;
                    s.available_energy = s.available_energy + amount;
                }
                ResourceKind::Crystal => {
                    s.collected_crystals = s.collected_crystals + amount;
                }
            }
            match s.knowledge.resources.get(pos) {
                Some((k, q)) => {
                    if q <= amount {
                        s.knowledge.resources.remove(pos);
                    } else {
                        s.knowledge.resources.insert(pos, (k, q - amount));
                    }
                }
                None => {}
            }
        }
        Message::ResourceDepleted { pos } => {
            s.knowledge.resources.remove(pos);
        }
    }
}

/// How far a scout sees, in each direction.
pub const VISION_RANGE: usize = 4;

/// `p` lies in the square of side 9 centred on `pos`.
pub open spec fn in_vision(pos: Pos, p: Pos) -> bool {
    &&& p.0 + VISION_RANGE >= pos.0
    &&& p.0 <= pos.0 + VISION_RANGE
    &&& p.1 + VISION_RANGE >= pos.1
    &&& p.1 <= pos.1 + VISION_RANGE
}

/// Row-major rank of `p` in the vision square of `pos`.
pub open spec fn vision_rank(pos: Pos, p: Pos) -> int {
    (p.1 - pos.1 + VISION_RANGE) * 9 + (p.0 - pos.0 + VISION_RANGE)
}

/// A deposit a scout at `pos` sees and the base does not know of.
pub open spec fn is_discovery(s: SimState, pos: Pos, p: Pos) -> bool {
    &&& in_vision(pos, p)
    &&& s.resources@.contains_key(p)
    &&& !s.knowledge.resources@.contains_key(p)
}

/// The position a report is about.
pub open spec fn report_pos(m: Message) -> Pos {
    match m {
        Message::ResourceDiscovered { pos, .. } => pos,
        Message::ResourceCollected { pos, .. } => pos,
        Message::ResourceDepleted { pos } => pos,
    }
}

/// `msgs` reports, in row-major order and once each, every deposit a scout at
/// `pos` sees that the base does not know of, with its kind and quantity.
pub open spec fn reports_discoveries(s: SimState, pos: Pos, msgs: Seq<Message>) -> bool {
    &&& forall|i: int| 0 <= i < msgs.len() ==> match #[trigger] msgs[i] {
        Message::ResourceDiscovered { pos: p, kind, quantity } => {
            &&& is_discovery(s, pos, p)
            &&& kind == s.resources@[p].kind
            &&& quantity == s.resources@[p].quantity
        },
        _ => false,
    }
    &&& forall|p: Pos| #[trigger] is_discovery(s, pos, p) ==> exists|i: int| 0 <= i < msgs.len()
        && report_pos(#[trigger] msgs[i]) == p
    &&& forall|i: int, j: int| 0 <= i < j < msgs.len()
        ==> vision_rank(pos, report_pos(#[trigger] msgs[i])) < vision_rank(pos, report_pos(#[trigger] msgs[j]))
}

/// What a scout at `pos` reports: the unknown deposits in its vision square.
pub fn scan_vision(s: &SimState, pos: Pos) -> (r: Vec<Message>)
    requires
        small_pos(pos),
    ensures
        reports_discoveries(*s, pos, r@),
{
    let mut found: Vec<Message> = Vec::new();
    let mut dy: usize = 0;
    while dy <= 2 * VISION_RANGE
        invariant
            small_pos(pos),
            dy <= 2 * VISION_RANGE + 1,
            forall|i: int| 0 <= i < found@.len() ==> match #[trigger] found@[i] {
                Message::ResourceDiscovered { pos: p, kind, quantity } => {
                    &&& is_discovery(*s, pos, p)
                    &&& kind == s.resources@[p].kind
                    &&& quantity == s.resources@[p].quantity
                    &&& vision_rank(pos, p) < dy * 9
                },
                _ => false,
            },
            forall|p: Pos| #[trigger] is_discovery(*s, pos, p) && vision_rank(pos, p) < dy * 9 ==> exists|i: int| 0 <= i < found@.len()
                && report_pos(found@[i]) == p,
            forall|i: int, j: int| 0 <= i < j < found@.len() ==> vision_rank(pos, report_pos(#[trigger] found@[i])) < vision_rank(pos, report_pos(#[trigger] found@[j])),
        decreases 2 * VISION_RANGE + 1 - dy,
    {
        let mut dx: usize = 0;
        while dx <= 2 * VISION_RANGE
            invariant
                small_pos(pos),
                dy <= 2 * VISION_RANGE,
                dx <= 2 * VISION_RANGE + 1,
                forall|i: int| 0 <= i < found@.len() ==> match #[trigger] found@[i] {
                    Message::ResourceDiscovered { pos: p, kind, quantity } => {
                        &&& is_discovery(*s, pos, p)
                        &&& kind == s.resources@[p].kind
                        &&& quantity == s.resources@[p].quantity
                        &&& vision_rank(pos, p) < dy * 9 + dx
                    },
                    _ => false,
                },
                forall|p: Pos| #[trigger] is_discovery(*s, pos, p) && vision_rank(pos, p) < dy * 9 + dx ==> exists|i: int| 0 <= i < found@.len()
                    && report_pos(found@[i]) == p,
                forall|i: int, j: int| 0 <= i < j < found@.len() ==> vision_rank(pos, report_pos(#[trigger] found@[i])) < vision_rank(pos, report_pos(#[trigger] found@[j])),
            decreases 2 * VISION_RANGE + 1 - dx,
        {
            let ghost before = found@;
            if pos.0 + dx >= VISION_RANGE && pos.1 + dy >= VISION_RANGE {
                let np: Pos = (pos.0 + dx - VISION_RANGE, pos.1 + dy - VISION_RANGE);
                assert(vision_rank(pos, np) == dy * 9 + dx);
                match s.resources.get(np) {
                    Some(res) => {
                        if !s.knowledge.resources.contains_key(np) {
                            found.push(Message::ResourceDiscovered { pos: np, kind: res.kind, quantity: res.quantity });
                            proof {
                                assert(report_pos(found@[found@.len() - 1]) == np);
                                assert forall|i: int| 0 <= i < before.len() implies found@[i] == before[i] by {}
                            }
                        }
                    }
                    None => {}
                }
            }
            proof {
                assert forall|p: Pos| #[trigger] is_discovery(*s, pos, p) && vision_rank(pos, p) < dy * 9 + dx + 1
                    implies exists|i: int| 0 <= i < found@.len() && report_pos(found@[i]) == p by {
                    if vision_rank(pos, p) < dy * 9 + dx {
                        let i = choose|i: int| 0 <= i < before.len() && report_pos(before[i]) == p;
                        assert(found@[i] == before[i]);
                    } else {
                        assert(p.1 - pos.1 + VISION_RANGE == dy && p.0 - pos.0 + VISION_RANGE == dx) by (nonlinear_arith)
                            requires
                                (p.1 - pos.1 + VISION_RANGE) * 9 + (p.0 - pos.0 + VISION_RANGE) == dy * 9 + dx,
                                0 <= p.0 - pos.0 + VISION_RANGE <= 8,
                                0 <= p.1 - pos.1 + VISION_RANGE <= 8,
                                0 <= dx <= 8,
                        ;
                        assert(report_pos(found@[found@.len() - 1]) == p);
                    }
                }
            }
            dx = dx + 1;
        }
        dy = dy + 1;
    }
    found
}

/// The passable neighbours of `pos` that nobody stands on, in move order.
fn free_neighbors(map: &GridMap, pos: Pos, occupied: &PosMap<()>) -> (r: Vec<Pos>)
    requires
        map.wf(),
        small_pos(pos),
    ensures
        forall|q: Pos| #[trigger] r@.contains(q) <==> neighbors_spec(*map, pos).contains(q) && !occupied@.contains_key(q),
        forall|q: Pos| #[trigger] r@.contains(q) ==> small_pos(q),
        r@ == free_cells(*map, pos, occupied@),
{
    let neighbors: Vec<Pos> = passable_neighbors(map, pos);
    proof { lemma_neighbors_spec(*map, pos); }
    let mut free: Vec<Pos> = Vec::new();
    let mut i: usize = 0;
    while i < neighbors.len()
        invariant
            neighbors@ == neighbors_spec(*map, pos),
            i <= neighbors@.len(),
            forall|q: Pos| #[trigger] free@.contains(q) <==> exists|j: int| 0 <= j < i && neighbors@[j] == q
                && !occupied@.contains_key(q),
            free@ == neighbors@.subrange(0, i as int).filter(free_pred(occupied@)),
        decreases neighbors@.len() - i,
    {
        let q: Pos = neighbors[i];
        proof {
            assert(neighbors@.subrange(0, i + 1) =~= neighbors@.subrange(0, i as int).push(q));
            neighbors@.subrange(0, i as int).lemma_filter_push(q, free_pred(occupied@));
        }
        let ok: bool = !occupied.contains_key(q);
        let ghost prev = free@;
        if ok {
            free.push(q);
        }
        proof {
            assert forall|q2: Pos| #[trigger] free@.contains(q2) <==> exists|j: int| 0 <= j < i + 1 && neighbors@[j] == q2
                && !occupied@.contains_key(q2) by {
                if free@.contains(q2) {
                    let k = choose|k: int| 0 <= k < free@.len() && free@[k] == q2;
                    if k < prev.len() {
                        assert(prev.contains(q2));
                    } else {
                        assert(neighbors@[i as int] == q2);
                    }
                }
                if exists|j: int| 0 <= j < i + 1 && neighbors@[j] == q2 && !occupied@.contains_key(q2) {
                    let j = choose|j: int| 0 <= j < i + 1 && neighbors@[j] == q2 && !occupied@.contains_key(q2);
                    if j < i {
                        assert(prev.contains(q2));
                        let k = choose|k: int| 0 <= k < prev.len() && prev[k] == q2;
                        assert(free@[k] == q2);
                    } else {
                        assert(free@[free@.len() - 1] == q2);
                    }
                }
            }
        }
        i = i + 1;
    }
    proof {
        assert(neighbors@.subrange(0, neighbors@.len() as int) =~= neighbors@);
        assert forall|q: Pos| #[trigger] free@.contains(q) <==> neighbors_spec(*map, pos).contains(q) && !occupied@.contains_key(q) by {
            if neighbors_spec(*map, pos).contains(q) && !occupied@.contains_key(q) {
                let j = choose|j: int| 0 <= j < neighbors@.len() && neighbors@[j] == q;
            }
        }
    }
    free
}

/// Times a scout has stood on `p` (0 if never).
pub open spec fn visit_count(visits: Map<Pos, u32>, p: Pos) -> int {
    if visits.contains_key(p) { visits[p] as int } else { 0 }
}

/// Among `candidates` (not empty), one of those visited least often, picked at
/// random.
fn pick_least_visited(candidates: &Vec<Pos>, visits: &PosMap<u32>, rng: &mut RobotRng) -> (r: Pos)
    requires
        candidates@.len() > 0,
    ensures
        candidates@.contains(r),
        forall|q: Pos| #[trigger] candidates@.contains(q) ==> visit_count(visits@, r) <= visit_count(visits@, q),
        picked(old(rng).log(), final(rng).log(), candidates@.filter(visits_pred(visits@, visit_count(visits@, r))), r),
{
    let first: u32 = match visits.get(candidates[0]) {
        Some(v) => v,
        None => 0,
    };
    let mut min_visits: u32 = first;
    let mut i: usize = 1;
    while i < candidates.len()
        invariant
            1 <= i <= candidates@.len(),
            exists|k: int| 0 <= k < i && visit_count(visits@, candidates@[k]) == min_visits,
            forall|k: int| 0 <= k < i ==> min_visits <= visit_count(visits@, #[trigger] candidates@[k]),
        decreases candidates@.len() - i,
    {
        let v: u32 = match visits.get(candidates[i]) {
            Some(v) => v,
            None => 0,
        };
        if v < min_visits {
            min_visits = v;
        }
        i = i + 1;
    }
    let mut least: Vec<Pos> = Vec::new();
    let mut k: usize = 0;
    while k < candidates.len()
        invariant
            k <= candidates@.len(),
            forall|m: int| 0 <= m < least@.len() ==> candidates@.contains(#[trigger] least@[m])
                && visit_count(visits@, least@[m]) == min_visits,
            exists|m: int| 0 <= m < candidates@.len() && visit_count(visits@, candidates@[m]) == min_visits,
            forall|m: int| 0 <= m < candidates@.len() ==> min_visits <= visit_count(visits@, #[trigger] candidates@[m]),
            (exists|m: int| 0 <= m < k && visit_count(visits@, candidates@[m]) == min_visits) ==> least@.len() > 0,
            least@ == candidates@.subrange(0, k as int).filter(visits_pred(visits@, min_visits as int)),
            least@.len() <= k,
        decreases candidates@.len() - k,
    {
        let q: Pos = candidates[k];
        proof {
            assert(candidates@.subrange(0, k + 1) =~= candidates@.subrange(0, k as int).push(q));
            candidates@.subrange(0, k as int).lemma_filter_push(q, visits_pred(visits@, min_visits as int));
        }
        let v: u32 = match visits.get(q) {
            Some(v) => v,
            None => 0,
        };
        if v == min_visits {
            least.push(q);
            assert(candidates@.contains(q));
            assert(least@[least@.len() - 1] == q);
        }
        k = k + 1;
    }
    assert(candidates@.subrange(0, candidates@.len() as int) =~= candidates@);
    let ghost log0 = rng.log();
    let pick: usize = thread_rng_below(rng, least.len());
    let chosen: Pos = least[pick];
    proof {
        assert(visit_count(visits@, chosen) == min_visits);
        assert(rng.log() == log0.push(Draw::Below { n: least@.len() as usize, r: pick }));
        assert forall|q: Pos| #[trigger] candidates@.contains(q) implies visit_count(visits@, chosen) <= visit_count(visits@, q) by {
            let m = choose|m: int| 0 <= m < candidates@.len() && candidates@[m] == q;
        }
    }
    chosen
}

/// Every visit count of a scout can still go up by one.
pub open spec fn visits_have_room(visits: Map<Pos, u32>) -> bool {
    forall|p: Pos| #[trigger] visits.contains_key(p) ==> visits[p] < u32::MAX
}

/// Whether every visit count can still go up by one.
pub fn visit_counts_have_room(visits: &PosMap<u32>) -> (r: bool)
    ensures
        r == visits_have_room(visits@),
{
    let keys: Vec<Pos> = visits.keys();
    let mut i: usize = 0;
    while i < keys.len()
        invariant
            i <= keys@.len(),
            forall|p: Pos| #[trigger] keys@.contains(p) <==> visits@.contains_key(p),
            forall|j: int| 0 <= j < i ==> visits@[#[trigger] keys@[j]] < u32::MAX,
        decreases keys@.len() - i,
    {
        assert(keys@.contains(keys@[i as int]));
        match visits.get(keys[i]) {
            Some(v) => {
                if v == u32::MAX {
                    return false;
                }
            }
            None => {}
        }
        i = i + 1;
    }
    proof {
        assert forall|p: Pos| #[trigger] visits@.contains_key(p) implies visits@[p] < u32::MAX by {
            assert(keys@.contains(p));
            let j = choose|j: int| 0 <= j < keys@.len() && keys@[j] == p;
        }
    }
    true
}

/// The cells taken by the player and by every robot but `self_idx`.
pub open spec fn occupied_map(s: SimState, self_idx: int) -> Map<Pos, ()> {
    Map::new(|p: Pos| spec_occupied(s, self_idx, p), |p: Pos| ())
}

/// Where a robot blocked on its way to `goal` ends up: at a nearest way
/// round when there is one, drawn (`log0` to `log1`) among the nearest in move
/// order; else where it was, drawing nothing.
pub open spec fn sidestep_outcome(
    map: GridMap,
    pos: Pos,
    blocked: Pos,
    goal: Pos,
    occupied: Map<Pos, ()>,
    new_pos: Pos,
    log0: Seq<Draw>,
    log1: Seq<Draw>,
) -> bool {
    if exists|q: Pos| #[trigger] is_detour(map, pos, blocked, occupied, q) {
        &&& is_detour(map, pos, blocked, occupied, new_pos)
        &&& forall|q: Pos| #[trigger] is_detour(map, pos, blocked, occupied, q)
            ==> spec_manhattan(new_pos, goal) <= spec_manhattan(q, goal)
        &&& picked(log0, log1, detours(map, pos, blocked, occupied).filter(distance_pred(goal, spec_manhattan(new_pos, goal))), new_pos)
    } else {
        new_pos == pos && log1 == log0
    }
}

/// One step towards the rally point `rp`: along a shortest route, stepping
/// aside when its first cell is taken; no move when already there or when `rp`
/// cannot be reached.
pub open spec fn rally_step(map: GridMap, pos: Pos, rp: Pos, occupied: Map<Pos, ()>, new_pos: Pos, log0: Seq<Draw>, log1: Seq<Draw>) -> bool {
    if pos == rp || !reachable(map, pos, rp) {
        new_pos == pos && log1 == log0
    } else {
        exists|path: Seq<Pos>| #[trigger] first_shortest_route(map, pos, rp, path) && (if !occupied.contains_key(path[0]) {
            new_pos == path[0] && log1 == log0
        } else {
            sidestep_outcome(map, pos, path[0], rp, occupied, new_pos, log0, log1)
        })
    }
}

/// `q` is a passable neighbour of `pos` that nobody stands on.
pub open spec fn is_free_neighbor(map: GridMap, pos: Pos, occupied: Map<Pos, ()>, q: Pos) -> bool {
    neighbors_spec(map, pos).contains(q) && !occupied.contains_key(q)
}

/// One exploring step: to a free neighbour visited least often, drawn
/// (`log0` to `log1`) among those in move order; or nowhere, drawing nothing,
/// when no neighbour is free.
pub open spec fn explore_step(
    map: GridMap,
    pos: Pos,
    occupied: Map<Pos, ()>,
    visits: Map<Pos, u32>,
    new_pos: Pos,
    log0: Seq<Draw>,
    log1: Seq<Draw>,
) -> bool {
    if exists|q: Pos| #[trigger] is_free_neighbor(map, pos, occupied, q) {
        &&& is_free_neighbor(map, pos, occupied, new_pos)
        &&& forall|q: Pos| #[trigger] is_free_neighbor(map, pos, occupied, q)
            ==> visit_count(visits, new_pos) <= visit_count(visits, q)
        &&& picked(log0, log1, free_cells(map, pos, occupied).filter(visits_pred(visits, visit_count(visits, new_pos))), new_pos)
    } else {
        new_pos == pos && log1 == log0
    }
}

/// `robots` after robot `idx`, if it exists, has moved to `p`.
pub open spec fn robots_moved(robots: Seq<RobotDisplay>, idx: int, p: Pos) -> Seq<RobotDisplay> {
    if 0 <= idx < robots.len() {
        robots.update(idx, RobotDisplay { x: p.0, y: p.1, ..robots[idx] })
    } else {
        robots
    }
}

proof fn lemma_route_first_small(map: GridMap, start: Pos, goal: Pos, path: Seq<Pos>)
    requires
        map.wf(),
        is_route(map, start, goal, path),
        small_pos(goal),
    ensures
        small_pos(path[0]),
{
    if path.len() > 1 {
        assert(passable_at(map, path[0]));
    }
}

fn move_robot(s: &mut SimState, idx: usize, p: Pos)
    requires
        old(s).wf(),
        small_pos(p),
    ensures
        final(s).wf(),
        final(s).robots@ == robots_moved(old(s).robots@, idx as int, p),
        final(s).map == old(s).map,
        final(s).resources == old(s).resources,
        final(s).knowledge == old(s).knowledge,
        final(s).player == old(s).player,
        final(s).scout_rally_pos == old(s).scout_rally_pos,
        final(s).wall_break_power == old(s).wall_break_power,
        final(s).available_energy == old(s).available_energy,
        final(s).collected_energy == old(s).collected_energy,
        final(s).collected_crystals == old(s).collected_crystals,
        final(s).reserved == old(s).reserved,
{
    if idx < s.robots.len() {
        let r: RobotDisplay = s.robots[idx];
        s.robots.set(idx, RobotDisplay { x: p.0, y: p.1, kind: r.kind, carrying: r.carrying });
    }
}

/// One tick of a scout standing on `pos`: it reports the unknown deposits it
/// sees, then moves one step (towards the rally point while the rally is on,
/// else to a least-visited free neighbour), counts the visit of its new cell and
/// shows itself there. Returns the new cell and the reports to send.
pub fn scout_tick(
    s: &mut SimState,
    robot_idx: usize,
    pos: Pos,
    visits: &mut PosMap<u32>,
    rng: &mut RobotRng,
) -> (r: (Pos, Vec<Message>))
    requires
        old(s).wf(),
        small_pos(pos),
        visits_have_room(old(visits)@),
    ensures
        final(s).wf(),
        small_pos(r.0),
        reports_discoveries(*old(s), pos, r.1@),
        match old(s).scout_rally_pos {
            Some(rp) => rally_step(old(s).map, pos, rp, occupied_map(*old(s), robot_idx as int), r.0, old(rng).log(), final(rng).log()),
            None => explore_step(
                old(s).map,
                pos,
                occupied_map(*old(s), robot_idx as int),
                old(visits)@,
                r.0,
                old(rng).log(),
                final(rng).log(),
            ),
        },
        final(visits)@ == old(visits)@.insert(r.0, (visit_count(old(visits)@, r.0) + 1) as u32),
        final(s).robots@ == robots_moved(old(s).robots@, robot_idx as int, r.0),
        final(s).map == old(s).map,
        final(s).resources == old(s).resources,
        final(s).knowledge == old(s).knowledge,
        final(s).player == old(s).player,
        final(s).scout_rally_pos == old(s).scout_rally_pos,
        final(s).wall_break_power == old(s).wall_break_power,
        final(s).available_energy == old(s).available_energy,
        final(s).collected_energy == old(s).collected_energy,
        final(s).collected_crystals == old(s).collected_crystals,
        final(s).reserved == old(s).reserved,
{
    let ghost log0 = rng.log();
    let discoveries: Vec<Message> = scan_vision(s, pos);
    let occupied: PosMap<()> = occupied_by_others(s, robot_idx);
    let ghost occ = occupied_map(*s, robot_idx as int);
    assert(occupied@ =~= occ);
    let mut new_pos: Pos = pos;
    match s.scout_rally_pos {
        Some(rally_pos) => {
            if !(pos.0 == rally_pos.0 && pos.1 == rally_pos.1) {
                let mut path: Vec<Pos> = match bfs(&s.map, pos, rally_pos) {
                    Some(p) => p,
                    None => Vec::new(),
                };
                if path.len() > 0 {
                    let next: Pos = path[0];
                    proof { lemma_route_first_small(s.map, pos, rally_pos, path@); }
                    if !occupied.contains_key(next) {
                        new_pos = next;
                        proof {
                            assert(first_shortest_route(s.map, pos, rally_pos, path@));
                        }
                    } else {
                        let ghost before = path@;
                        let _moved: bool = step_aside(&s.map, &mut new_pos, &mut path, rally_pos, &occupied, rng);
                        proof {
                            assert(sidestep_outcome(s.map, pos, before[0], rally_pos, occ, new_pos, log0, rng.log()));
                            assert(first_shortest_route(s.map, pos, rally_pos, before));
                        }
                    }
                }
            }
            assert(rally_step(s.map, pos, rally_pos, occ, new_pos, log0, rng.log()));
        }
        None => {
            let candidates: Vec<Pos> = free_neighbors(&s.map, pos, &occupied);
            if candidates.len() > 0 {
                new_pos = pick_least_visited(&candidates, visits, rng);
                proof {
                    assert(is_free_neighbor(s.map, pos, occ, new_pos));
                    assert forall|q: Pos| #[trigger] is_free_neighbor(s.map, pos, occ, q)
                        implies visit_count(visits@, new_pos) <= visit_count(visits@, q) by {
                        assert(candidates@.contains(q));
                    }
                }
            } else {
                proof {
                    assert forall|q: Pos| !#[trigger] is_free_neighbor(s.map, pos, occ, q) by {
                        if is_free_neighbor(s.map, pos, occ, q) {
                            assert(candidates@.contains(q));
                        }
                    }
                }
            }
            assert(explore_step(s.map, pos, occ, visits@, new_pos, log0, rng.log()));
        }
    }
    let count: u32 = match visits.get(new_pos) {
        Some(v) => v,
        None => 0,
    };
    visits.insert(new_pos, count + 1);
    move_robot(s, robot_idx, new_pos);
    (new_pos, discoveries)
}

/// Every cell of `path` is one where neighbour arithmetic is safe.
pub open spec fn all_small(path: Seq<Pos>) -> bool {
    forall|i: int| 0 <= i < path.len() ==> small_pos(#[trigger] path[i])
}

/// The route a robot at `pos` plans to `goal`: empty when already there or
/// when `goal` cannot be reached, else a shortest route.
pub open spec fn planned_route(map: GridMap, pos: Pos, goal: Pos, p: Seq<Pos>) -> bool {
    if pos == goal || !reachable(map, pos, goal) {
        p.len() == 0
    } else {
        first_shortest_route(map, pos, goal, p)
    }
}

/// One move along `path` towards `goal`: to its first cell (which leaves the
/// path) when that cell is free, else a side step that drops the path; no move
/// on an empty path.
pub open spec fn advance(
    map: GridMap,
    pos: Pos,
    path: Seq<Pos>,
    goal: Pos,
    occupied: Map<Pos, ()>,
    new_pos: Pos,
    new_path: Seq<Pos>,
    log0: Seq<Draw>,
    log1: Seq<Draw>,
) -> bool {
    if path.len() == 0 {
        new_pos == pos && new_path == path && log1 == log0
    } else if !occupied.contains_key(path[0]) {
        new_pos == path[0] && new_path == path.drop_first() && log1 == log0
    } else {
        &&& sidestep_outcome(map, pos, path[0], goal, occupied, new_pos, log0, log1)
        &&& new_path == (if new_pos == pos { path } else { Seq::<Pos>::empty() })
    }
}

proof fn lemma_route_small(map: GridMap, start: Pos, goal: Pos, path: Seq<Pos>)
    requires
        map.wf(),
        is_route(map, start, goal, path),
        small_pos(goal),
    ensures
        all_small(path),
{
    assert forall|i: int| 0 <= i < path.len() implies small_pos(#[trigger] path[i]) by {
        if i < path.len() - 1 {
            assert(passable_at(map, path[i]));
        }
    }
}

/// Plans a route from `pos` to `goal` (empty when there is none).
fn plan_route(map: &GridMap, pos: Pos, goal: Pos) -> (r: Vec<Pos>)
    requires
        map.wf(),
        small_pos(pos),
        small_pos(goal),
    ensures
        planned_route(*map, pos, goal, r@),
        all_small(r@),
{
    match bfs(map, pos, goal) {
        Some(p) => {
            proof {
                if pos != goal {
                    lemma_route_small(*map, pos, goal, p@);
                }
            }
            p
        }
        None => Vec::new(),
    }
}

/// Takes one step along `path` towards `goal`, stepping aside when its first
/// cell is taken.
fn advance_along(
    map: &GridMap,
    pos: &mut Pos,
    path: &mut Vec<Pos>,
    goal: Pos,
    occupied: &PosMap<()>,
    rng: &mut RobotRng,
)
    requires
        map.wf(),
        small_pos(*old(pos)),
        small_pos(goal),
        all_small(old(path)@),
    ensures
        advance(*map, *old(pos), old(path)@, goal, occupied@, *final(pos), final(path)@, old(rng).log(), final(rng).log()),
        small_pos(*final(pos)),
        all_small(final(path)@),
{
    if path.len() > 0 {
        let next: Pos = path[0];
        if !occupied.contains_key(next) {
            let ghost before = path@;
            path.remove(0);
            *pos = next;
            assert(path@ =~= before.drop_first());
        } else {
            let ghost here = *pos;
            let ghost log0 = rng.log();
            let moved: bool = step_aside(map, pos, path, goal, occupied, rng);
            proof {
                lemma_neighbors_spec(*map, here);
                if moved {
                    assert(is_detour(*map, here, next, occupied@, *pos));
                    assert(neighbors_spec(*map, here).contains(*pos));
                    assert(*pos != here);
                    assert(path@ =~= Seq::<Pos>::empty());
                }
                assert(sidestep_outcome(*map, here, next, goal, occupied@, *pos, log0, rng.log()));
            }
        }
    }
}

/// A collector's own state between ticks.
pub struct Collector {
    pub pos: Pos,
    /// The deposit it is heading for.
    pub target: Option<Pos>,
    /// The rest of its planned route.
    pub path: Vec<Pos>,
    /// Loading at `carry_source`.
    pub at_source: bool,
    /// Bringing its load back to the base.
    pub returning: bool,
    pub carry_source: Pos,
    pub carry_kind: ResourceKind,
    pub carry_amount: u32,
    /// The deposit it has claimed, if any.
    pub my_claimed: Option<Pos>,
}

impl Collector {
    /// A collector standing on `start` with nothing to do yet.
    pub fn new(start: Pos) -> (r: Self)
        ensures
            small_pos(start) ==> forall|cap: u32| #[trigger] r.wf(cap),
            forall|map: GridMap| #[trigger] r.on_course(map),
            r.pos == start,
            r.target is None,
            r.path@.len() == 0,
            !r.at_source,
            !r.returning,
            r.carry_source == start,
            r.carry_kind == ResourceKind::Energy,
            r.carry_amount == 0,
            r.my_claimed is None,
    {
        Collector {
            pos: start,
            target: None,
            path: Vec::new(),
            at_source: false,
            returning: false,
            carry_source: start,
            carry_kind: ResourceKind::Energy,
            carry_amount: 0,
            my_claimed: None,
        }
    }

    /// Every cell it holds is small; its load never exceeds the capacity (one
    /// unit when the capacity is zero), while loading stays below it (or is
    /// empty), and is never empty on the way home.
    pub open spec fn wf(&self, carry_capacity: u32) -> bool {
        &&& small_pos(self.pos)
        &&& all_small(self.path@)
        &&& small_pos(self.carry_source)
        &&& (self.target matches Some(t) ==> small_pos(t))
        &&& (self.my_claimed matches Some(p) ==> small_pos(p))
        &&& (self.at_source ==> self.carry_amount == 0 || self.carry_amount < carry_capacity)
        &&& self.carry_amount <= (if carry_capacity > 0 { carry_capacity } else { 1 })
        &&& (self.returning ==> self.carry_amount > 0)
    }

    /// Its stored route is a walk on `map` starting next to it, its target is
    /// passable, and it holds a route only while heading somewhere: never while
    /// loading, and not when idle without a target.
    pub open spec fn on_course(&self, map: GridMap) -> bool {
        &&& route_from(map, self.pos, self.path@)
        &&& (self.target matches Some(t) ==> passable_at(map, t))
        &&& !(self.at_source && self.returning)
        &&& (self.at_source ==> self.path@.len() == 0)
        &&& (!self.returning && self.target is None ==> self.path@.len() == 0)
    }
}

/// Drops `c`'s claim, if any, from the reservations.
fn release_claim(c: &mut Collector, s: &mut SimState)
    requires
        old(s).wf(),
    ensures
        final(s).wf(),
        final(c).my_claimed is None,
        final(s).reserved@ == (match old(c).my_claimed {
            Some(p) => old(s).reserved@.remove(p),
            None => old(s).reserved@,
        }),
        final(c).pos == old(c).pos,
        final(c).target == old(c).target,
        final(c).path@ == old(c).path@,
        final(c).at_source == old(c).at_source,
        final(c).returning == old(c).returning,
        final(c).carry_source == old(c).carry_source,
        final(c).carry_kind == old(c).carry_kind,
        final(c).carry_amount == old(c).carry_amount,
        final(s).map == old(s).map,
        final(s).resources == old(s).resources,
        final(s).knowledge == old(s).knowledge,
        final(s).robots == old(s).robots,
        final(s).player == old(s).player,
        final(s).scout_rally_pos == old(s).scout_rally_pos,
        final(s).wall_break_power == old(s).wall_break_power,
        final(s).available_energy == old(s).available_energy,
        final(s).collected_energy == old(s).collected_energy,
        final(s).collected_crystals == old(s).collected_crystals,
{
    match c.my_claimed {
        Some(p) => {
            s.reserved.remove(p);
        }
        None => {}
    }
    c.my_claimed = None;
}

fn set_carrying(s: &mut SimState, idx: usize, carrying: bool)
    requires
        old(s).wf(),
        idx < old(s).robots@.len(),
    ensures
        final(s).wf(),
        final(s).robots@ == old(s).robots@.update(idx as int, RobotDisplay { carrying, ..old(s).robots@[idx as int] }),
        final(s).map == old(s).map,
        final(s).resources == old(s).resources,
        final(s).knowledge == old(s).knowledge,
        final(s).player == old(s).player,
        final(s).scout_rally_pos == old(s).scout_rally_pos,
        final(s).wall_break_power == old(s).wall_break_power,
        final(s).available_energy == old(s).available_energy,
        final(s).collected_energy == old(s).collected_energy,
        final(s).collected_crystals == old(s).collected_crystals,
        final(s).reserved == old(s).reserved,
{
    let r: RobotDisplay = s.robots[idx];
    s.robots.set(idx, RobotDisplay { x: r.x, y: r.y, kind: r.kind, carrying });
}

/// The reservations once `claim`, if any, is dropped.
pub open spec fn released(reserved: Map<Pos, ()>, claim: Option<Pos>) -> Map<Pos, ()> {
    match claim {
        Some(p) => reserved.remove(p),
        None => reserved,
    }
}

/// `robots` with robot `idx` marked as carrying or not.
pub open spec fn with_carrying(robots: Seq<RobotDisplay>, idx: int, carrying: bool) -> Seq<RobotDisplay> {
    robots.update(idx, RobotDisplay { carrying, ..robots[idx] })
}

/// Unloading: a returning collector on the base reports its whole load and
/// becomes idle.
pub open spec fn unload_step(s0: SimState, c0: Collector, s1: SimState, c1: Collector, idx: int, msgs: Seq<Message>, log0: Seq<Draw>, log1: Seq<Draw>) -> bool {
    &&& log1 == log0
    &&& msgs == seq![Message::ResourceCollected { pos: c0.carry_source, kind: c0.carry_kind, amount: c0.carry_amount }]
    &&& !c1.returning && !c1.at_source && c1.carry_amount == 0
    &&& c1.path@.len() == 0 && c1.target is None
    &&& c1.pos == c0.pos && c1.carry_source == c0.carry_source && c1.carry_kind == c0.carry_kind
    &&& c1.my_claimed == c0.my_claimed
    &&& s1.robots@ == robots_moved(with_carrying(s0.robots@, idx, false), idx, c1.pos)
    &&& s1.resources@ == s0.resources@
    &&& s1.reserved@ == s0.reserved@
}

/// Heading home: one step along the route to the base (planned first when
/// there is none).
pub open spec fn homeward_step(s0: SimState, c0: Collector, s1: SimState, c1: Collector, idx: int, msgs: Seq<Message>, log0: Seq<Draw>, log1: Seq<Draw>) -> bool {
    let base = s0.map.spec_base_pos();
    &&& exists|path0: Seq<Pos>| #[trigger] advance(s0.map, c0.pos, path0, base, occupied_map(s0, idx), c1.pos, c1.path@, log0, log1)
        && (if c0.path@.len() == 0 { planned_route(s0.map, c0.pos, base, path0) } else { path0 == c0.path@ })
    &&& msgs.len() == 0
    &&& c1.returning == c0.returning && c1.at_source == c0.at_source && c1.carry_amount == c0.carry_amount
    &&& c1.target == c0.target && c1.carry_source == c0.carry_source && c1.carry_kind == c0.carry_kind
    &&& c1.my_claimed == c0.my_claimed
    &&& s1.robots@ == robots_moved(s0.robots@, idx, c1.pos)
    &&& s1.resources@ == s0.resources@
    &&& s1.reserved@ == s0.reserved@
}

/// Loading: one unit is taken from the deposit at `carry_source` (which
/// disappears, and is reported, once exhausted or if already gone); when the
/// deposit is gone or the cargo full, the claim is dropped and the collector
/// heads home if it holds anything.
pub open spec fn loading_step(
    s0: SimState,
    c0: Collector,
    s1: SimState,
    c1: Collector,
    idx: int,
    cap: u32,
    msgs: Seq<Message>,
    log0: Seq<Draw>,
    log1: Seq<Draw>,
) -> bool {
    let src = c0.carry_source;
    let present = s0.resources@.contains_key(src);
    let left: int = if present { s0.resources@[src].quantity - 1 } else { 0 };
    let amount: int = c0.carry_amount + if present { 1int } else { 0int };
    let depleted = !present || left == 0;
    let back = depleted || amount >= cap;
    &&& log1 == log0
    &&& s1.resources@ == (if depleted {
        s0.resources@.remove(src)
    } else {
        s0.resources@.insert(src, Resource { kind: s0.resources@[src].kind, quantity: left as u32 })
    })
    &&& msgs == (if depleted { seq![Message::ResourceDepleted { pos: src }] } else { Seq::<Message>::empty() })
    &&& c1.carry_amount == amount
    &&& c1.at_source == !back
    &&& c1.returning == (back && amount > 0)
    &&& c1.path@ == (if back { Seq::<Pos>::empty() } else { c0.path@ })
    &&& c1.my_claimed == (if back { None } else { c0.my_claimed })
    &&& s1.reserved@ == (if back { released(s0.reserved@, c0.my_claimed) } else { s0.reserved@ })
    &&& s1.robots@ == robots_moved(
        if back && amount > 0 { with_carrying(s0.robots@, idx, true) } else { s0.robots@ },
        idx,
        c1.pos,
    )
    &&& c1.pos == c0.pos && c1.target == c0.target
    &&& c1.carry_source == c0.carry_source && c1.carry_kind == c0.carry_kind
}

/// The collector stands on a deposit it may load from: one not at the base,
/// claimed by itself or by nobody.
pub open spec fn can_load_here(s0: SimState, c0: Collector) -> bool {
    &&& s0.resources@.contains_key(c0.pos)
    &&& !s0.map.spec_is_base(c0.pos.0 as int, c0.pos.1 as int)
    &&& (c0.my_claimed == Some(c0.pos) || !s0.reserved@.contains_key(c0.pos))
}

/// Starting to load on the deposit underfoot, claiming it if it was not yet.
pub open spec fn seek_load(s0: SimState, c0: Collector, s1: SimState, c1: Collector) -> bool {
    let here = c0.pos;
    &&& c1.carry_source == here && c1.carry_kind == s0.resources@[here].kind && c1.carry_amount == 0
    &&& c1.at_source && c1.target is None && c1.path@.len() == 0 && c1.pos == here
    &&& if c0.my_claimed == Some(here) {
        s1.reserved@ == s0.reserved@ && c1.my_claimed == c0.my_claimed
    } else {
        s1.reserved@ == released(s0.reserved@, c0.my_claimed).insert(here, ()) && c1.my_claimed == Some(here)
    }
}

/// Going on towards target `t`: done when there; given up (with its claim)
/// when no route is planned and none exists; else one step along the route.
pub open spec fn seek_target(s0: SimState, c0: Collector, s1: SimState, c1: Collector, idx: int, t: Pos, log0: Seq<Draw>, log1: Seq<Draw>) -> bool {
    let here = c0.pos;
    if here == t {
        &&& c1.target is None && c1.path@.len() == 0 && c1.pos == here
        &&& s1.reserved@ == s0.reserved@ && c1.my_claimed == c0.my_claimed
        &&& log1 == log0
    } else if c0.path@.len() == 0 && !reachable(s0.map, here, t) {
        &&& c1.target is None && c1.path@.len() == 0 && c1.pos == here
        &&& s1.reserved@ == released(s0.reserved@, c0.my_claimed) && c1.my_claimed is None
        &&& log1 == log0
    } else {
        &&& c1.target == c0.target
        &&& s1.reserved@ == s0.reserved@ && c1.my_claimed == c0.my_claimed
        &&& exists|path0: Seq<Pos>| #[trigger] advance(s0.map, here, path0, t, occupied_map(s0, idx), c1.pos, c1.path@, log0, log1)
            && (if c0.path@.len() == 0 { first_shortest_route(s0.map, here, t, path0) } else { path0 == c0.path@ })
    }
}

/// Without a target: claim the best candidate and step towards it, or, when
/// there is none, wander to a free neighbour drawn among all of them in move
/// order.
pub open spec fn seek_new(s0: SimState, c0: Collector, s1: SimState, c1: Collector, idx: int, priority: Priority, log0: Seq<Draw>, log1: Seq<Draw>) -> bool {
    let here = c0.pos;
    let occ = occupied_map(s0, idx);
    let r1 = released(s0.reserved@, c0.my_claimed);
    if exists|q: Pos| #[trigger] is_candidate(s0.knowledge.resources@, s0.resources@, r1, q) {
        &&& c1.target matches Some(t) && is_best_target(s0.knowledge.resources@, s0.resources@, r1, here, priority, t)
            && c1.my_claimed == Some(t) && s1.reserved@ == r1.insert(t, ())
            && exists|path0: Seq<Pos>| #[trigger] advance(s0.map, here, path0, t, occ, c1.pos, c1.path@, log0, log1)
                && planned_route(s0.map, here, t, path0)
    } else {
        &&& c1.target is None && c1.my_claimed is None && s1.reserved@ == r1
        &&& c1.path@ == c0.path@
        &&& if exists|q: Pos| #[trigger] is_free_neighbor(s0.map, here, occ, q) {
            is_free_neighbor(s0.map, here, occ, c1.pos) && picked(log0, log1, free_cells(s0.map, here, occ), c1.pos)
        } else {
            c1.pos == here && log1 == log0
        }
    }
}

/// Seeking: start loading on a deposit it may use; else go on towards its
/// target; else pick a new one or wander.
pub open spec fn seeking_step(
    s0: SimState,
    c0: Collector,
    s1: SimState,
    c1: Collector,
    idx: int,
    priority: Priority,
    msgs: Seq<Message>,
    log0: Seq<Draw>,
    log1: Seq<Draw>,
) -> bool {
    &&& msgs.len() == 0
    &&& !c1.returning
    &&& s1.resources@ == s0.resources@
    &&& s1.robots@ == robots_moved(s0.robots@, idx, c1.pos)
    &&& if can_load_here(s0, c0) {
        seek_load(s0, c0, s1, c1) && log1 == log0
    } else {
        &&& !c1.at_source && c1.carry_amount == c0.carry_amount
        &&& c1.carry_source == c0.carry_source && c1.carry_kind == c0.carry_kind
        &&& match c0.target {
            Some(t) => seek_target(s0, c0, s1, c1, idx, t, log0, log1),
            None => seek_new(s0, c0, s1, c1, idx, priority, log0, log1),
        }
    }
}

/// `path` can be walked from `pos`: each cell is passable and next to the one
/// before it (the first next to `pos`).
pub open spec fn route_from(map: GridMap, pos: Pos, path: Seq<Pos>) -> bool {
    &&& (path.len() > 0 ==> adjacent(pos, path[0]))
    &&& forall|i: int| 1 <= i < path.len() ==> #[trigger] adjacent(path[i - 1], path[i])
    &&& forall|i: int| 0 <= i < path.len() ==> #[trigger] passable_at(map, path[i])
}

/// The places a collector heads for are passable: the base centre and every
/// deposit.
pub open spec fn goals_passable(s: SimState) -> bool {
    &&& passable_at(s.map, s.map.spec_base_pos())
    &&& forall|p: Pos| #[trigger] s.resources@.contains_key(p) ==> passable_at(s.map, p)
}

/// Robot `idx` going from `from` to `to` in state `s` either stays, or steps
/// to an orthogonal neighbour that is passable and taken neither by the player
/// nor by another robot.
pub open spec fn legal_move(s: SimState, idx: int, from: Pos, to: Pos) -> bool {
    ||| to == from
    ||| (adjacent(from, to) && passable_at(s.map, to) && !spec_occupied(s, idx, to))
}

/// A shortest route to a passable goal can be walked.
proof fn lemma_route_walkable(map: GridMap, start: Pos, goal: Pos, path: Seq<Pos>)
    requires
        is_route(map, start, goal, path),
        passable_at(map, goal),
    ensures
        route_from(map, start, path),
{
    assert forall|i: int| 0 <= i < path.len() implies #[trigger] passable_at(map, path[i]) by {
        if i < path.len() - 1 {
            assert(passable_at(map, path[i]));
        }
    }
}

/// A planned route to a passable goal can be walked.
proof fn lemma_planned_walkable(map: GridMap, start: Pos, goal: Pos, path: Seq<Pos>)
    requires
        planned_route(map, start, goal, path),
        passable_at(map, goal),
    ensures
        route_from(map, start, path),
{
    if path.len() > 0 {
        lemma_route_walkable(map, start, goal, path);
    }
}

/// One `advance` along a walkable route is a legal move and leaves a
/// walkable route.
proof fn lemma_advance_course(
    map: GridMap,
    pos: Pos,
    path: Seq<Pos>,
    goal: Pos,
    occupied: Map<Pos, ()>,
    new_pos: Pos,
    new_path: Seq<Pos>,
    log0: Seq<Draw>,
    log1: Seq<Draw>,
)
    requires
        map.wf(),
        small_pos(pos),
        route_from(map, pos, path),
        advance(map, pos, path, goal, occupied, new_pos, new_path, log0, log1),
    ensures
        route_from(map, new_pos, new_path),
        new_pos == pos || (adjacent(pos, new_pos) && passable_at(map, new_pos) && !occupied.contains_key(new_pos)),
{
    lemma_neighbors_spec(map, pos);
    if path.len() == 0 {
    } else if !occupied.contains_key(path[0]) {
        assert(passable_at(map, path[0]));
        assert forall|i: int| 1 <= i < new_path.len() implies #[trigger] adjacent(new_path[i - 1], new_path[i]) by {
            let j = i + 1;
            assert(adjacent(path[j - 1], path[j]));
        }
        assert forall|i: int| 0 <= i < new_path.len() implies #[trigger] passable_at(map, new_path[i]) by {
            assert(passable_at(map, path[i + 1]));
        }
        if new_path.len() > 0 {
            let j: int = 1;
            assert(adjacent(path[j - 1], path[j]));
        }
    } else if new_pos != pos {
        assert(is_detour(map, pos, path[0], occupied, new_pos));
    }
}

/// What one collector tick does to its position and route: on a map whose
/// goals are passable, a collector on course stays on course and moves
/// legally.
proof fn lemma_tick_course(
    s0: SimState,
    c0: Collector,
    s1: SimState,
    c1: Collector,
    idx: int,
    cap: u32,
    priority: Priority,
    msgs: Seq<Message>,
    log0: Seq<Draw>,
    log1: Seq<Draw>,
)
    requires
        s0.wf(),
        c0.wf(cap),
        goals_passable(s0),
        c0.on_course(s0.map),
        s1.map == s0.map,
        c0.returning && s0.map.spec_is_base(c0.pos.0 as int, c0.pos.1 as int) ==> unload_step(s0, c0, s1, c1, idx, msgs, log0, log1),
        c0.returning && !s0.map.spec_is_base(c0.pos.0 as int, c0.pos.1 as int) ==> homeward_step(s0, c0, s1, c1, idx, msgs, log0, log1),
        !c0.returning && c0.at_source ==> loading_step(s0, c0, s1, c1, idx, cap, msgs, log0, log1),
        !c0.returning && !c0.at_source ==> seeking_step(s0, c0, s1, c1, idx, priority, msgs, log0, log1),
    ensures
        c1.on_course(s1.map),
        legal_move(s0, idx, c0.pos, c1.pos),
        goals_passable(s1),
{
    let map = s0.map;
    let occ = occupied_map(s0, idx);
    let here = c0.pos;
    lemma_neighbors_spec(map, here);
    if c0.returning {
        if map.spec_is_base(here.0 as int, here.1 as int) {
        } else {
            let base = map.spec_base_pos();
            let path0 = choose|path0: Seq<Pos>| #[trigger] advance(map, here, path0, base, occ, c1.pos, c1.path@, log0, log1)
                && (if c0.path@.len() == 0 { planned_route(map, here, base, path0) } else { path0 == c0.path@ });
            if c0.path@.len() == 0 {
                lemma_planned_walkable(map, here, base, path0);
            }
            lemma_advance_course(map, here, path0, base, occ, c1.pos, c1.path@, log0, log1);
        }
    } else if c0.at_source {
        assert forall|p: Pos| #[trigger] s1.resources@.contains_key(p) implies passable_at(s1.map, p) by {
            assert(s0.resources@.contains_key(p));
        }
    } else if can_load_here(s0, c0) {
    } else {
        match c0.target {
            Some(t) => {
                if here == t {
                } else if c0.path@.len() == 0 && !reachable(map, here, t) {
                } else {
                    let path0 = choose|path0: Seq<Pos>| #[trigger] advance(map, here, path0, t, occ, c1.pos, c1.path@, log0, log1)
                        && (if c0.path@.len() == 0 { first_shortest_route(map, here, t, path0) } else { path0 == c0.path@ });
                    if c0.path@.len() == 0 {
                        lemma_route_walkable(map, here, t, path0);
                    }
                    lemma_advance_course(map, here, path0, t, occ, c1.pos, c1.path@, log0, log1);
                }
            }
            None => {
                let r1 = released(s0.reserved@, c0.my_claimed);
                if exists|q: Pos| #[trigger] is_candidate(s0.knowledge.resources@, s0.resources@, r1, q) {
                    let t = c1.target->0;
                    assert(s0.resources@.contains_key(t));
                    let path0 = choose|path0: Seq<Pos>| #[trigger] advance(map, here, path0, t, occ, c1.pos, c1.path@, log0, log1)
                        && planned_route(map, here, t, path0);
                    lemma_planned_walkable(map, here, t, path0);
                    lemma_advance_course(map, here, path0, t, occ, c1.pos, c1.path@, log0, log1);
                } else {
                }
            }
        }
    }
}

/// Between two ticks the map only loses walls; a collector on course on the
/// old map is on course on the new one.
pub proof fn law_course_survives_wall_wear(a: GridMap, b: GridMap, c: Collector)
    requires
        passability_grows(a, b),
        c.on_course(a),
    ensures
        c.on_course(b),
{
    assert forall|i: int| 0 <= i < c.path@.len() implies #[trigger] passable_at(b, c.path@[i]) by {
        assert(passable_at(a, c.path@[i]));
    }
    if c.target is Some {
        assert(passable_at(a, c.target->0));
    }
}

/// Between two ticks the map only loses walls and deposits only run out:
/// every place a collector heads for stays passable.
pub proof fn law_goals_survive(s0: SimState, s1: SimState)
    requires
        goals_passable(s0),
        passability_grows(s0.map, s1.map),
        s1.resources@.dom().subset_of(s0.resources@.dom()),
    ensures
        goals_passable(s1),
{
    let b = s0.map.spec_base_pos();
    assert(s0.map.spec_passable(b.0 as int, b.1 as int));
    assert forall|p: Pos| #[trigger] s1.resources@.contains_key(p) implies passable_at(s1.map, p) by {
        assert(s0.resources@.contains_key(p));
        assert(s0.map.spec_passable(p.0 as int, p.1 as int));
    }
}

/// On a freshly generated map every goal is passable: the base centre lies in
/// the base square, and deposits lie on empty ground.
pub proof fn law_generated_goals_passable(s: SimState, walls: Seq<Vec<bool>>)
    requires
        s.map.wf(),
        s.map.width > 0,
        s.map.height > 0,
        forall|x: int, y: int| #![trigger s.map.tile(x, y)]
            0 <= x < s.map.width && 0 <= y < s.map.height
                ==> s.map.tile(x, y) == generated_tile(s.map.width as int, s.map.height as int, walls, x, y),
        forall|p: Pos| #[trigger] s.resources@.contains_key(p) ==> {
            &&& s.map.in_bounds(p.0 as int, p.1 as int)
            &&& s.map.tile(p.0 as int, p.1 as int) == Tile::Empty
        },
    ensures
        goals_passable(s),
{
    let b = s.map.spec_base_pos();
    assert(s.map.tile(b.0 as int, b.1 as int) == Tile::Base);
}

/// One tick of collector `robot_idx`: brings its load home, loads one unit at
/// its deposit, or looks for a deposit, then shows itself at its cell.
/// Returns the reports to send to the base.
pub fn collector_tick(
    c: &mut Collector,
    s: &mut SimState,
    robot_idx: usize,
    carry_capacity: u32,
    priority: &Priority,
    rng: &mut RobotRng,
) -> (msgs: Vec<Message>)
    requires
        old(s).wf(),
        old(c).wf(carry_capacity),
        robot_idx < old(s).robots@.len(),
        !old(c).returning && old(c).at_source && old(s).resources@.contains_key(old(c).carry_source)
            ==> old(s).resources@[old(c).carry_source].quantity > 0,
    ensures
        final(s).wf(),
        final(c).wf(carry_capacity),
        old(c).returning && old(s).map.spec_is_base(old(c).pos.0 as int, old(c).pos.1 as int)
            ==> unload_step(*old(s), *old(c), *final(s), *final(c), robot_idx as int, msgs@, old(rng).log(), final(rng).log()),
        old(c).returning && !old(s).map.spec_is_base(old(c).pos.0 as int, old(c).pos.1 as int)
            ==> homeward_step(*old(s), *old(c), *final(s), *final(c), robot_idx as int, msgs@, old(rng).log(), final(rng).log()),
        !old(c).returning && old(c).at_source
            ==> loading_step(*old(s), *old(c), *final(s), *final(c), robot_idx as int, carry_capacity, msgs@, old(rng).log(), final(rng).log()),
        !old(c).returning && !old(c).at_source
            ==> seeking_step(*old(s), *old(c), *final(s), *final(c), robot_idx as int, *priority, msgs@, old(rng).log(), final(rng).log()),
        final(s).map == old(s).map,
        final(s).knowledge == old(s).knowledge,
        final(s).player == old(s).player,
        final(s).scout_rally_pos == old(s).scout_rally_pos,
        final(s).wall_break_power == old(s).wall_break_power,
        final(s).available_energy == old(s).available_energy,
        final(s).collected_energy == old(s).collected_energy,
        final(s).collected_crystals == old(s).collected_crystals,
        (final(s).robots@[robot_idx as int].x, final(s).robots@[robot_idx as int].y) == final(c).pos,
        old(c).returning && old(s).map.spec_is_base(old(c).pos.0 as int, old(c).pos.1 as int) ==> msgs@ == seq![
            Message::ResourceCollected { pos: old(c).carry_source, kind: old(c).carry_kind, amount: old(c).carry_amount },
        ],
        goals_passable(*old(s)) && old(c).on_course(old(s).map) ==> {
            &&& final(c).on_course(final(s).map)
            &&& legal_move(*old(s), robot_idx as int, old(c).pos, final(c).pos)
            &&& goals_passable(*final(s))
        },
{
    let ghost s0 = *s;
    let ghost c0 = *c;
    let ghost log0 = rng.log();
    let ghost occ = occupied_map(s0, robot_idx as int);
    let mut msgs: Vec<Message> = Vec::new();
    let base_pos: Pos = s.map.base_pos();
    assert(small_pos(base_pos));
    if c.returning {
        if s.map.is_base(c.pos.0, c.pos.1) {
            msgs.push(Message::ResourceCollected { pos: c.carry_source, kind: c.carry_kind, amount: c.carry_amount });
            c.returning = false;
            c.at_source = false;
            c.carry_amount = 0;
            set_carrying(s, robot_idx, false);
            c.path.clear();
            c.target = None;
        } else {
            if c.path.len() == 0 {
                c.path = plan_route(&s.map, c.pos, base_pos);
            }
            let ghost path0 = c.path@;
            let occupied: PosMap<()> = occupied_by_others(s, robot_idx);
            assert(occupied@ =~= occ);
            advance_along(&s.map, &mut c.pos, &mut c.path, base_pos, &occupied, rng);
            assert(advance(s0.map, c0.pos, path0, base_pos, occ, c.pos, c.path@, log0, rng.log()));
        }
    } else if c.at_source {
        let depleted: bool = match s.resources.get(c.carry_source) {
            Some(res) => {
                let left: u32 = res.quantity - 1;
                c.carry_amount = c.carry_amount + 1;
                if left == 0 {
                    true
                } else {
                    s.resources.insert(c.carry_source, crate::types::Resource { kind: res.kind, quantity: left });
                    false
                }
            }
            None => true,
        };
        if depleted {
            s.resources.remove(c.carry_source);
            msgs.push(Message::ResourceDepleted { pos: c.carry_source });
        }
        let should_return: bool = depleted || c.carry_amount >= carry_capacity;
        if should_return {
            c.at_source = false;
            c.path.clear();
            release_claim(c, s);
            if c.carry_amount > 0 {
                c.returning = true;
                set_carrying(s, robot_idx, true);
            }
        }
    } else {
        let here: Pos = c.pos;
        let on_deposit: bool = s.resources.contains_key(here) && !s.map.is_base(here.0, here.1);
        let claimed_here: bool = match c.my_claimed {
            Some(p) => p.0 == here.0 && p.1 == here.1,
            None => false,
        };
        if on_deposit && (claimed_here || !s.reserved.contains_key(here)) {
            c.carry_source = here;
            c.carry_kind = match s.resources.get(here) {
                Some(res) => res.kind,
                None => c.carry_kind,
            };
            c.carry_amount = 0;
            c.at_source = true;
            c.target = None;
            c.path.clear();
            if !claimed_here {
                release_claim(c, s);
                s.reserved.insert(here, ());
                c.my_claimed = Some(here);
            }
            assert(seek_load(s0, c0, *s, *c));
        } else {
            match c.target {
                Some(t) => {
                    if here.0 == t.0 && here.1 == t.1 {
                        c.target = None;
                        c.path.clear();
                        assert(seek_target(s0, c0, *s, *c, robot_idx as int, t, log0, rng.log()));
                    } else {
                        let ghost had_path = c.path@.len() > 0;
                        if c.path.len() == 0 {
                            match bfs(&s.map, here, t) {
                                Some(p) => {
                                    proof { lemma_route_small(s.map, here, t, p@); }
                                    c.path = p;
                                }
                                None => {
                                    release_claim(c, s);
                                    c.target = None;
                                }
                            }
                        }
                        let ghost path0 = c.path@;
                        let occupied: PosMap<()> = occupied_by_others(s, robot_idx);
                        assert(occupied@ =~= occ);
                        advance_along(&s.map, &mut c.pos, &mut c.path, t, &occupied, rng);
                        assert(advance(s0.map, here, path0, t, occ, c.pos, c.path@, log0, rng.log()));
                        assert(seek_target(s0, c0, *s, *c, robot_idx as int, t, log0, rng.log()));
                    }
                }
                None => {
                    release_claim(c, s);
                    match best_target(s, here, priority) {
                        Some(t) => {
                            assert(is_candidate(s0.knowledge.resources@, s0.resources@, released(s0.reserved@, c0.my_claimed), t));
                            s.reserved.insert(t, ());
                            c.my_claimed = Some(t);
                            c.target = Some(t);
                            c.path = plan_route(&s.map, here, t);
                            let ghost path0 = c.path@;
                            let occupied: PosMap<()> = occupied_by_others(s, robot_idx);
                            assert(occupied@ =~= occ);
                            advance_along(&s.map, &mut c.pos, &mut c.path, t, &occupied, rng);
                            assert(advance(s0.map, here, path0, t, occ, c.pos, c.path@, log0, rng.log()));
                            assert(seek_new(s0, c0, *s, *c, robot_idx as int, *priority, log0, rng.log()));
                        }
                        None => {
                            let occupied: PosMap<()> = occupied_by_others(s, robot_idx);
                            assert(occupied@ =~= occ);
                            let free: Vec<Pos> = free_neighbors(&s.map, here, &occupied);
                            if free.len() > 0 {
                                let pick: usize = thread_rng_below(rng, free.len());
                                c.pos = free[pick];
                                assert(rng.log() == log0.push(Draw::Below { n: free@.len() as usize, r: pick }));
                                assert(free@.contains(free@[pick as int]));
                                assert(is_free_neighbor(s0.map, here, occ, c.pos));
                            } else {
                                assert forall|q: Pos| !#[trigger] is_free_neighbor(s0.map, here, occ, q) by {
                                    if is_free_neighbor(s0.map, here, occ, q) {
                                        assert(free@.contains(q));
                                    }
                                }
                            }
                            assert(seek_new(s0, c0, *s, *c, robot_idx as int, *priority, log0, rng.log()));
                        }
                    }
                }
            }
        }
    }
    move_robot(s, robot_idx, c.pos);
    proof {
        if goals_passable(s0) && c0.on_course(s0.map) {
            lemma_tick_course(s0, c0, *s, *c, robot_idx as int, carry_capacity, *priority, msgs@, log0, rng.log());
        }
    }
    msgs
}

/// Loading moves units, it does not create or destroy them: what the deposit
/// loses, the cargo gains.
pub proof fn law_loading_conserves(
    s0: SimState,
    c0: Collector,
    s1: SimState,
    c1: Collector,
    idx: int,
    cap: u32,
    msgs: Seq<Message>,
    log0: Seq<Draw>,
    log1: Seq<Draw>,
)
    requires
        loading_step(s0, c0, s1, c1, idx, cap, msgs, log0, log1),
        s0.resources@.contains_key(c0.carry_source),
        s0.resources@[c0.carry_source].quantity > 0,
    ensures
        (if s1.resources@.contains_key(c0.carry_source) { s1.resources@[c0.carry_source].quantity as int } else { 0 })
            + c1.carry_amount == s0.resources@[c0.carry_source].quantity + c0.carry_amount,
{
    let src = c0.carry_source;
    if s0.resources@[src].quantity == 1 {
        assert(!s1.resources@.contains_key(src));
    } else {
        assert(s1.resources@.contains_key(src));
        assert(s1.resources@[src].quantity == s0.resources@[src].quantity - 1);
    }
}

/// A delivery reports the load the collector took: from the deposit where it
/// started loading, of the kind that deposit held, and the amount it carries
/// (at least one unit). The kind is recorded when loading starts and kept on
/// the way home.
pub proof fn law_delivery_reports_its_load(
    s0: SimState,
    c0: Collector,
    s1: SimState,
    c1: Collector,
    idx: int,
    cap: u32,
    priority: Priority,
    msgs: Seq<Message>,
    log0: Seq<Draw>,
    log1: Seq<Draw>,
)
    ensures
        c0.wf(cap) && c0.returning && unload_step(s0, c0, s1, c1, idx, msgs, log0, log1) ==> {
            &&& msgs.len() == 1
            &&& msgs[0] matches Message::ResourceCollected { pos, kind, amount }
            &&& pos == c0.carry_source && kind == c0.carry_kind && amount == c0.carry_amount && amount > 0
        },
        !c0.returning && !c0.at_source && can_load_here(s0, c0) && seeking_step(s0, c0, s1, c1, idx, priority, msgs, log0, log1)
            ==> c1.carry_kind == s0.resources@[c0.pos].kind && c1.carry_source == c0.pos,
        !c0.returning && c0.at_source && loading_step(s0, c0, s1, c1, idx, cap, msgs, log0, log1)
            ==> c1.carry_kind == c0.carry_kind && c1.carry_source == c0.carry_source,
        c0.returning && homeward_step(s0, c0, s1, c1, idx, msgs, log0, log1)
            ==> c1.carry_kind == c0.carry_kind && c1.carry_source == c0.carry_source
            && c1.carry_amount == c0.carry_amount,
{
}

/// Every delivery brings at least one unit home.
pub proof fn law_delivery_nonempty(
    s0: SimState,
    c0: Collector,
    s1: SimState,
    c1: Collector,
    idx: int,
    cap: u32,
    msgs: Seq<Message>,
    log0: Seq<Draw>,
    log1: Seq<Draw>,
)
    requires
        c0.wf(cap),
        c0.returning,
        unload_step(s0, c0, s1, c1, idx, msgs, log0, log1),
    ensures
        msgs.len() == 1,
        msgs[0] matches Message::ResourceCollected { amount, .. } && amount > 0,
{
}

/// A deposit the base already knows of is never reported again.
pub proof fn law_no_repeated_discovery(s: SimState, pos: Pos, msgs: Seq<Message>, i: int)
    requires
        reports_discoveries(s, pos, msgs),
        0 <= i < msgs.len(),
    ensures
        !s.knowledge.resources@.contains_key(report_pos(msgs[i])),
        s.resources@.contains_key(report_pos(msgs[i])),
{
    assert(is_discovery(s, pos, report_pos(msgs[i])));
}

} // verus!
