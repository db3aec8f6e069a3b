use resource_simulation::simulation::CellView;
use resource_simulation::types::ResourceKind;
use resource_simulation::map::{GridMap, Tile};
use resource_simulation::pos_map::PosMap;
use resource_simulation::simulation::{
    player_spawn_pos, pulse_scout_rally, refresh_scout_rally, release_scout_rally, set_scout_rally_held,
    wall_break_energy_cost, RobotDisplay, RobotKind, SimState,
};
use resource_simulation::types::{Direction, Resource};

fn grid(rows: &[&str]) -> GridMap {
    let tiles: Vec<Vec<Tile>> = rows
        .iter()
        .map(|r| {
            r.chars()
                .map(|c| match c {
                    '#' => Tile::Obstacle(3),
                    'B' => Tile::Base,
                    _ => Tile::Empty,
                })
                .collect()
        })
        .collect();
    GridMap { width: rows[0].len(), height: rows.len(), tiles }
}

fn open_state() -> SimState {
    SimState::new(grid(&[".....", ".....", ".....", ".....", "....."]), PosMap::new(), 1)
}

#[test]
fn wall_break_cost_table() {
    assert_eq!(wall_break_energy_cost(0), 0);
    assert_eq!(wall_break_energy_cost(1), 50);
    assert_eq!(wall_break_energy_cost(2), 150);
    assert_eq!(wall_break_energy_cost(3), 350);
    assert_eq!(wall_break_energy_cost(200), 350);
}

#[test]
fn spawn_prefers_two_cells_above_the_base() {
    let m = grid(&[".....", ".....", ".....", ".....", "....."]);
    assert_eq!(player_spawn_pos(&m), (2, 0));
    let blocked = grid(&["..#..", ".....", ".....", ".....", "....."]);
    assert_eq!(player_spawn_pos(&blocked), (4, 2));
}

#[test]
fn spawn_falls_back_to_the_base_centre() {
    let m = grid(&["#####", "#####", "##.##", "#####", "#####"]);
    assert_eq!(player_spawn_pos(&m), (2, 2));
}

#[test]
fn new_state_clamps_power_and_starts_empty() {
    let s = SimState::new(grid(&["..."]), PosMap::new(), 9);
    assert_eq!(s.wall_break_power, 3);
    let s0 = SimState::new(grid(&["..."]), PosMap::new(), 0);
    assert_eq!(s0.wall_break_power, 1);
    assert_eq!(s0.available_energy, 0);
    assert!(s0.robots.is_empty());
    assert!(s0.scout_rally_pos.is_none());
}

#[test]
fn spawn_robots_puts_scouts_first_on_the_base() {
    let mut s = open_state();
    s.spawn_robots(2, 1);
    assert_eq!(s.robots.len(), 3);
    assert_eq!(s.robots[0].kind, RobotKind::Scout);
    assert_eq!(s.robots[1].kind, RobotKind::Scout);
    assert_eq!(s.robots[2].kind, RobotKind::Collector);
    assert!(s.robots.iter().all(|r| r.x == 2 && r.y == 2 && !r.carrying));
}

#[test]
fn move_player_respects_walls_edges_and_robots() {
    let mut s = open_state();
    assert_eq!(s.player_pos(), (2, 0));
    assert!(!s.move_player(Direction::Up));
    assert!(s.move_player(Direction::Right));
    assert_eq!(s.player_pos(), (3, 0));
    s.robots.push(RobotDisplay { x: 3, y: 1, kind: RobotKind::Scout, carrying: false });
    assert!(s.robot_at((3, 1)));
    assert!(!s.move_player(Direction::Down));
    assert_eq!(s.player_pos(), (3, 0));
    s.map.tiles[0][4] = Tile::Obstacle(1);
    assert!(!s.move_player(Direction::Right));
    assert!(s.move_player(Direction::Left));
    assert!(s.move_player(Direction::Right));
    assert_eq!(s.player_pos(), (3, 0));
}

#[test]
fn rally_point_follows_the_ship() {
    let mut s = open_state();
    s.set_scout_rally_active(true);
    assert_eq!(s.scout_rally_pos, Some((2, 0)));
    assert!(s.move_player(Direction::Down));
    assert_eq!(s.scout_rally_pos, Some((2, 1)));
}

#[test]
fn rally_costs_per_scout_away() {
    let mut s = open_state();
    s.spawn_robots(3, 1);
    assert_eq!(s.scout_rally_energy_cost(), 60);
    s.available_energy = 59;
    s.set_scout_rally_active(true);
    assert!(s.scout_rally_pos.is_none());
    assert_eq!(s.available_energy, 59);
    s.available_energy = 100;
    s.set_scout_rally_active(true);
    assert_eq!(s.scout_rally_pos, Some((2, 0)));
    assert_eq!(s.available_energy, 40);
    // already on: free
    s.set_scout_rally_active(true);
    assert_eq!(s.available_energy, 40);
    s.set_scout_rally_active(false);
    assert!(s.scout_rally_pos.is_none());
    assert_eq!(s.available_energy, 40);
}

#[test]
fn scouts_on_the_ship_are_not_charged() {
    let mut s = open_state();
    s.robots.push(RobotDisplay { x: 2, y: 0, kind: RobotKind::Scout, carrying: false });
    s.robots.push(RobotDisplay { x: 1, y: 1, kind: RobotKind::Scout, carrying: false });
    s.robots.push(RobotDisplay { x: 1, y: 1, kind: RobotKind::Collector, carrying: false });
    assert_eq!(s.scout_rally_energy_cost(), 20);
}

#[test]
fn wall_shot_costs_energy_only_when_it_hits() {
    let mut s = open_state();
    s.map.tiles[1][2] = Tile::Obstacle(3);
    assert_eq!(s.wall_break_energy_cost(), 50);
    assert!(!s.damage_wall_from_player(Direction::Down));
    s.available_energy = 120;
    assert!(!s.damage_wall_from_player(Direction::Right));
    assert_eq!(s.available_energy, 120);
    assert!(!s.damage_wall_from_player(Direction::Up));
    assert!(s.damage_wall_from_player(Direction::Down));
    assert_eq!(s.map.tiles[1][2], Tile::Obstacle(2));
    assert_eq!(s.available_energy, 70);
    s.wall_break_power = 2;
    s.available_energy = 150;
    assert!(s.damage_wall_from_player(Direction::Down));
    assert_eq!(s.map.tiles[1][2], Tile::Empty);
    assert_eq!(s.available_energy, 0);
    s.wall_break_power = 0;
    s.map.tiles[1][2] = Tile::Obstacle(3);
    assert!(!s.damage_wall_from_player(Direction::Down));
}

#[test]
fn rally_pulse_hold_and_release() {
    let mut s = open_state();
    let mut until: Option<u64> = None;
    let mut held = false;
    pulse_scout_rally(&mut s, &mut until, 1000);
    assert_eq!(until, Some(1300));
    assert!(s.scout_rally_pos.is_some());
    release_scout_rally(&mut s, &mut until, &mut held, 1200);
    assert!(s.scout_rally_pos.is_some());
    assert_eq!(until, Some(1300));
    refresh_scout_rally(&mut s, &mut until, &mut held, None, 1400);
    assert!(s.scout_rally_pos.is_none());
    assert_eq!(until, None);
    set_scout_rally_held(&mut s, &mut held, true);
    assert!(held);
    assert!(s.scout_rally_pos.is_some());
    refresh_scout_rally(&mut s, &mut until, &mut held, None, 5000);
    assert!(s.scout_rally_pos.is_some());
    release_scout_rally(&mut s, &mut until, &mut held, 5000);
    assert!(!held);
    assert!(s.scout_rally_pos.is_none());
    refresh_scout_rally(&mut s, &mut until, &mut held, Some(true), 6000);
    assert!(held);
    assert!(s.scout_rally_pos.is_some());
}

#[test]
fn resources_stay_where_generated() {
    let mut res: PosMap<Resource> = PosMap::new();
    res.insert((0, 0), Resource { kind: ResourceKind::Energy, quantity: 3 });
    let s = SimState::new(grid(&["..."]), res, 1);
    assert_eq!(s.resources.len(), 1);
    assert!(s.resources.contains_key((0, 0)));
}

#[test]
fn cell_view_precedence() {
    let mut res: PosMap<Resource> = PosMap::new();
    res.insert((1, 1), Resource { kind: ResourceKind::Crystal, quantity: 3 });
    res.insert((3, 3), Resource { kind: ResourceKind::Energy, quantity: 3 });
    let mut s = SimState::new(grid(&[".....", ".....", "..B..", "....#", "....."]), res, 1);
    s.robots.push(RobotDisplay { x: 1, y: 1, kind: RobotKind::Collector, carrying: true });
    s.robots.push(RobotDisplay { x: 1, y: 1, kind: RobotKind::Scout, carrying: false });
    assert_eq!(s.cell_view(2, 0), CellView::Ship);
    assert_eq!(s.cell_view(1, 1), CellView::Robot { kind: RobotKind::Collector, carrying: true });
    assert_eq!(s.cell_view(3, 3), CellView::Deposit(ResourceKind::Energy));
    assert_eq!(s.cell_view(4, 3), CellView::Terrain(Tile::Obstacle(3)));
    assert_eq!(s.cell_view(2, 2), CellView::Terrain(Tile::Base));
}

#[test]
fn spawn_robots_keeps_power_and_counters() {
    let mut s = SimState::new(grid(&[".....", ".....", ".....", ".....", "....."]), PosMap::new(), 2);
    s.collected_energy = 5;
    s.collected_crystals = 6;
    s.spawn_robots(1, 2);
    assert_eq!(s.wall_break_power, 2);
    assert_eq!(s.collected_energy, 5);
    assert_eq!(s.collected_crystals, 6);
}

#[test]
fn robot_counts_for_the_status_bar() {
    let mut s = SimState::new(grid(&[".....", ".....", ".....", ".....", "....."]), PosMap::new(), 1);
    assert_eq!(s.robot_counts(), (0, 0, 0));
    s.spawn_robots(2, 3);
    s.robots[3].carrying = true;
    assert_eq!(s.robot_counts(), (2, 3, 1));
}
