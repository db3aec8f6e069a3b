use resource_simulation::config::Priority;
use resource_simulation::rng::RobotRng;
use resource_simulation::map::{GridMap, Tile};
use resource_simulation::message::Message;
use resource_simulation::pos_map::PosMap;
use resource_simulation::robot::{
    base_processor, best_target, collector_tick, manhattan, occupied_by_others, scan_vision, scout_tick,
    step_aside, visit_counts_have_room, Collector,
};
use resource_simulation::simulation::{RobotDisplay, RobotKind, SimState};
use resource_simulation::types::{Resource, ResourceKind};

fn grid(rows: &[&str]) -> GridMap {
    let tiles: Vec<Vec<Tile>> = rows
        .iter()
        .map(|r| {
            r.chars()
                .map(|c| match c {
                    '#' => Tile::Obstacle(3),
                    'B' => Tile::Base,
                    _ => Tile::Empty,
                })
                .collect()
        })
        .collect();
    GridMap { width: rows[0].len(), height: rows.len(), tiles }
}

fn state(rows: &[&str], deposits: &[((usize, usize), ResourceKind, u32)]) -> SimState {
    let mut res: PosMap<Resource> = PosMap::new();
    for (p, k, q) in deposits {
        res.insert(*p, Resource { kind: *k, quantity: *q });
    }
    SimState::new(grid(rows), res, 1)
}

const OPEN7: [&str; 7] = [".......", ".......", ".......", "..BBB..", ".......", ".......", "......."];

#[test]
fn manhattan_distance() {
    assert_eq!(manhattan((1, 2), (4, 0)), 5);
    assert_eq!(manhattan((3, 3), (3, 3)), 0);
}

#[test]
fn base_records_discoveries_without_overwriting() {
    let mut s = state(&OPEN7, &[]);
    base_processor(&mut s, Message::ResourceDiscovered { pos: (1, 1), kind: ResourceKind::Energy, quantity: 30 });
    assert_eq!(s.knowledge.resources.get((1, 1)), Some((ResourceKind::Energy, 30)));
    base_processor(&mut s, Message::ResourceDiscovered { pos: (1, 1), kind: ResourceKind::Crystal, quantity: 5 });
    assert_eq!(s.knowledge.resources.get((1, 1)), Some((ResourceKind::Energy, 30)));
}

#[test]
fn base_counts_deliveries() {
    let mut s = state(&OPEN7, &[]);
    base_processor(&mut s, Message::ResourceDiscovered { pos: (1, 1), kind: ResourceKind::Energy, quantity: 30 });
    base_processor(&mut s, Message::ResourceCollected { pos: (1, 1), kind: ResourceKind::Energy, amount: 10 });
    assert_eq!(s.collected_energy, 10);
    assert_eq!(s.available_energy, 10);
    assert_eq!(s.knowledge.resources.get((1, 1)), Some((ResourceKind::Energy, 20)));
    base_processor(&mut s, Message::ResourceCollected { pos: (1, 1), kind: ResourceKind::Energy, amount: 25 });
    assert!(!s.knowledge.resources.contains_key((1, 1)));
    assert_eq!(s.collected_energy, 35);
    base_processor(&mut s, Message::ResourceCollected { pos: (5, 5), kind: ResourceKind::Crystal, amount: 4 });
    assert_eq!(s.collected_crystals, 4);
    assert_eq!(s.available_energy, 35);
}

#[test]
fn base_forgets_depleted_deposits() {
    let mut s = state(&OPEN7, &[]);
    base_processor(&mut s, Message::ResourceDiscovered { pos: (2, 1), kind: ResourceKind::Crystal, quantity: 3 });
    base_processor(&mut s, Message::ResourceDepleted { pos: (2, 1) });
    assert!(s.knowledge.resources.is_empty());
}

#[test]
fn best_target_nearest_and_by_priority() {
    let mut s = state(
        &OPEN7,
        &[((0, 0), ResourceKind::Crystal, 5), ((5, 0), ResourceKind::Energy, 5), ((3, 6), ResourceKind::Crystal, 5)],
    );
    assert_eq!(best_target(&s, (1, 1), &Priority::Nearest), None);
    for m in [((0, 0), ResourceKind::Crystal), ((5, 0), ResourceKind::Energy), ((3, 6), ResourceKind::Crystal)] {
        base_processor(&mut s, Message::ResourceDiscovered { pos: m.0, kind: m.1, quantity: 5 });
    }
    assert_eq!(best_target(&s, (1, 1), &Priority::Nearest), Some((0, 0)));
    assert_eq!(best_target(&s, (1, 1), &Priority::Energy), Some((5, 0)));
    assert_eq!(best_target(&s, (3, 5), &Priority::Crystal), Some((3, 6)));
    s.reserved.insert((5, 0), ());
    assert_eq!(best_target(&s, (1, 1), &Priority::Energy), Some((0, 0)));
    s.resources.remove((0, 0));
    assert_eq!(best_target(&s, (1, 1), &Priority::Nearest), Some((3, 6)));
}

#[test]
fn occupied_cells_are_the_others_and_the_ship() {
    let mut s = state(&OPEN7, &[]);
    s.robots.push(RobotDisplay { x: 1, y: 1, kind: RobotKind::Scout, carrying: false });
    s.robots.push(RobotDisplay { x: 2, y: 2, kind: RobotKind::Collector, carrying: false });
    let occ = occupied_by_others(&s, 0);
    assert!(!occ.contains_key((1, 1)));
    assert!(occ.contains_key((2, 2)));
    assert!(occ.contains_key(s.player_pos()));
    assert_eq!(occ.len(), 2);
}

#[test]
fn step_aside_takes_the_closest_free_neighbour() {
    let m = grid(&[".....", ".....", "....."]);
    let mut occ: PosMap<()> = PosMap::new();
    occ.insert((1, 0), ());
    let mut rng = RobotRng::new();
    let mut pos = (1, 1);
    let mut path = vec![(2, 1), (3, 1)];
    assert!(step_aside(&m, &mut pos, &mut path, (4, 2), &occ, &mut rng));
    assert!(path.is_empty());
    assert_eq!(pos, (1, 2));
    // two detours at the same distance: either may be taken
    let mut pos_tie = (1, 1);
    let mut path_tie = vec![(2, 1)];
    assert!(step_aside(&m, &mut pos_tie, &mut path_tie, (4, 1), &occ, &mut rng));
    assert!(pos_tie == (1, 2) || pos_tie == (0, 1));
    let mut pos2 = (0, 0);
    let mut path2: Vec<(usize, usize)> = vec![];
    assert!(!step_aside(&m, &mut pos2, &mut path2, (4, 1), &occ, &mut rng));
    assert_eq!(pos2, (0, 0));
    let mut pos3 = (0, 0);
    let mut path3 = vec![(0, 1)];
    assert!(!step_aside(&m, &mut pos3, &mut path3, (4, 1), &occ, &mut rng));
    assert_eq!(path3, vec![(0, 1)]);
}

#[test]
fn scout_reports_unknown_deposits_in_view() {
    let mut s = state(&OPEN7, &[((0, 0), ResourceKind::Energy, 12), ((6, 6), ResourceKind::Crystal, 8)]);
    let reports = scan_vision(&s, (1, 1));
    assert_eq!(reports.len(), 1);
    match reports[0] {
        Message::ResourceDiscovered { pos, kind, quantity } => {
            assert_eq!(pos, (0, 0));
            assert_eq!(kind, ResourceKind::Energy);
            assert_eq!(quantity, 12);
        }
        _ => panic!("not a discovery"),
    }
    assert_eq!(scan_vision(&s, (4, 4)).len(), 2);
    base_processor(&mut s, Message::ResourceDiscovered { pos: (0, 0), kind: ResourceKind::Energy, quantity: 12 });
    assert_eq!(scan_vision(&s, (1, 1)).len(), 0);
}

#[test]
fn scout_explores_least_visited_cell() {
    let mut s = state(&["...", "...", "..."], &[]);
    s.player.x = 2;
    s.player.y = 2;
    s.robots.push(RobotDisplay { x: 1, y: 1, kind: RobotKind::Scout, carrying: false });
    let mut visits: PosMap<u32> = PosMap::new();
    visits.insert((2, 1), 3);
    visits.insert((0, 1), 1);
    visits.insert((1, 0), 2);
    let mut rng = RobotRng::new();
    assert!(visit_counts_have_room(&visits));
    let (p, _) = scout_tick(&mut s, 0, (1, 1), &mut visits, &mut rng);
    assert_eq!(p, (1, 2));
    assert_eq!(visits.get((1, 2)), Some(1));
    assert_eq!((s.robots[0].x, s.robots[0].y), (1, 2));
}

#[test]
fn scout_heads_for_the_rally_point() {
    let mut s = state(&OPEN7, &[]);
    s.robots.push(RobotDisplay { x: 3, y: 6, kind: RobotKind::Scout, carrying: false });
    s.scout_rally_pos = Some((3, 0));
    let mut visits: PosMap<u32> = PosMap::new();
    let mut rng = RobotRng::new();
    let (p, _) = scout_tick(&mut s, 0, (3, 6), &mut visits, &mut rng);
    assert_eq!(p, (3, 5));
    let (q, _) = scout_tick(&mut s, 0, (3, 0), &mut visits, &mut rng);
    assert_eq!(q, (3, 0));
    assert_eq!(visits.get((3, 0)), Some(1));
}

#[test]
fn visit_counter_room() {
    let mut visits: PosMap<u32> = PosMap::new();
    visits.insert((0, 0), u32::MAX);
    assert!(!visit_counts_have_room(&visits));
}

#[test]
fn collector_full_cycle() {
    let mut s = state(&OPEN7, &[((3, 0), ResourceKind::Crystal, 3)]);
    s.player.x = 0;
    s.player.y = 6;
    s.robots.push(RobotDisplay { x: 3, y: 3, kind: RobotKind::Collector, carrying: false });
    base_processor(&mut s, Message::ResourceDiscovered { pos: (3, 0), kind: ResourceKind::Crystal, quantity: 3 });
    let mut c = Collector::new((3, 3));
    let mut rng = RobotRng::new();
    let mut all: Vec<Message> = Vec::new();
    for _ in 0..30 {
        let msgs = collector_tick(&mut c, &mut s, 0, 2, &Priority::Nearest, &mut rng);
        for m in msgs {
            match m {
                Message::ResourceCollected { .. } | Message::ResourceDepleted { .. } => {
                    base_processor(&mut s, m);
                }
                _ => {}
            }
            all.push(m);
        }
    }
    assert!(s.resources.is_empty());
    assert_eq!(s.collected_crystals, 3);
    assert!(s.reserved.is_empty());
    assert!(!c.returning && !c.at_source);
    let depleted = all.iter().filter(|m| matches!(m, Message::ResourceDepleted { .. })).count();
    assert_eq!(depleted, 1);
}

#[test]
fn collector_claims_and_walks_to_its_target() {
    let mut s = state(&OPEN7, &[((6, 3), ResourceKind::Energy, 9)]);
    s.robots.push(RobotDisplay { x: 3, y: 3, kind: RobotKind::Collector, carrying: false });
    base_processor(&mut s, Message::ResourceDiscovered { pos: (6, 3), kind: ResourceKind::Energy, quantity: 9 });
    let mut c = Collector::new((3, 3));
    let mut rng = RobotRng::new();
    let msgs = collector_tick(&mut c, &mut s, 0, 5, &Priority::Nearest, &mut rng);
    assert!(msgs.is_empty());
    assert_eq!(c.target, Some((6, 3)));
    assert_eq!(c.my_claimed, Some((6, 3)));
    assert!(s.reserved.contains_key((6, 3)));
    assert_eq!(c.pos, (4, 3));
    assert_eq!(c.path, vec![(5, 3), (6, 3)]);
    assert_eq!((s.robots[0].x, s.robots[0].y), (4, 3));
}

#[test]
fn collector_wanders_without_knowledge() {
    let mut s = state(&["...", "...", "..."], &[]);
    s.player.x = 0;
    s.player.y = 0;
    s.robots.push(RobotDisplay { x: 1, y: 1, kind: RobotKind::Collector, carrying: false });
    let mut c = Collector::new((1, 1));
    let mut rng = RobotRng::new();
    collector_tick(&mut c, &mut s, 0, 5, &Priority::Nearest, &mut rng);
    let d = manhattan(c.pos, (1, 1));
    assert_eq!(d, 1);
    assert!(c.target.is_none());
}

#[test]
fn returning_collector_delivers_at_least_one_unit() {
    let mut s = state(&OPEN7, &[((3, 2), ResourceKind::Energy, 1)]);
    s.player.x = 0;
    s.player.y = 6;
    s.robots.push(RobotDisplay { x: 3, y: 2, kind: RobotKind::Collector, carrying: false });
    let mut c = Collector::new((3, 2));
    let mut rng = RobotRng::new();
    let mut delivered: Vec<u32> = Vec::new();
    for _ in 0..10 {
        for m in collector_tick(&mut c, &mut s, 0, 5, &Priority::Nearest, &mut rng) {
            if let Message::ResourceCollected { amount, .. } = m {
                delivered.push(amount);
            }
        }
    }
    assert!(!delivered.is_empty());
    assert!(delivered.iter().all(|a| *a > 0));
}
