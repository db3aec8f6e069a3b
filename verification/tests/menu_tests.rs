use resource_simulation::menu::{
    clamp_favorite_selection, direction_from_key, game_key, main_menu_key, parse_seed, store_key, victory_key,
    GameAction, Key, MainMenu, MenuAction, MenuFocus, StoreAction, VictoryAction,
};
use resource_simulation::types::Direction;

#[test]
fn keys_to_directions() {
    assert_eq!(direction_from_key(Key::Char('z')), Some(Direction::Up));
    assert_eq!(direction_from_key(Key::Char('Z')), Some(Direction::Up));
    assert_eq!(direction_from_key(Key::Char('s')), Some(Direction::Down));
    assert_eq!(direction_from_key(Key::Char('q')), Some(Direction::Left));
    assert_eq!(direction_from_key(Key::Char('D')), Some(Direction::Right));
    assert_eq!(direction_from_key(Key::Left), Some(Direction::Left));
    assert_eq!(direction_from_key(Key::Char('x')), None);
    assert_eq!(direction_from_key(Key::Enter), None);
}

#[test]
fn seed_parsing() {
    assert_eq!(parse_seed(&vec![]), None);
    assert_eq!(parse_seed(&"0".chars().collect()), Some(0));
    assert_eq!(parse_seed(&"4294967295".chars().collect()), Some(u32::MAX));
    assert_eq!(parse_seed(&"4294967296".chars().collect()), None);
    assert_eq!(parse_seed(&"0012".chars().collect()), Some(12));
}

#[test]
fn menu_levels_and_store() {
    let mut m = MainMenu::new();
    assert_eq!(main_menu_key(&mut m, Key::Left, 0), MenuAction::Nothing);
    assert_eq!(m.selected, 0);
    for _ in 0..10 {
        main_menu_key(&mut m, Key::Right, 0);
    }
    assert_eq!(m.selected, 4);
    assert_eq!(main_menu_key(&mut m, Key::Enter, 0), MenuAction::StartLevel(4));
    assert_eq!(main_menu_key(&mut m, Key::Char('S'), 0), MenuAction::OpenStore);
    assert_eq!(main_menu_key(&mut m, Key::Esc, 0), MenuAction::Quit);
}

#[test]
fn menu_seed_typing() {
    let mut m = MainMenu::new();
    main_menu_key(&mut m, Key::Right, 0);
    main_menu_key(&mut m, Key::Down, 0);
    assert_eq!(m.focus, MenuFocus::SeedInput);
    // shortcuts are typed as text, digits only
    assert_eq!(main_menu_key(&mut m, Key::Char('s'), 0), MenuAction::Nothing);
    assert_eq!(main_menu_key(&mut m, Key::Enter, 0), MenuAction::Nothing);
    for c in "12345678901".chars() {
        main_menu_key(&mut m, Key::Char(c), 0);
    }
    assert_eq!(m.seed_input.iter().collect::<String>(), "1234567890");
    assert_eq!(main_menu_key(&mut m, Key::Enter, 0), MenuAction::StartSeed(1, 1234567890));
    main_menu_key(&mut m, Key::Backspace, 0);
    assert_eq!(main_menu_key(&mut m, Key::Enter, 0), MenuAction::StartSeed(1, 123456789));
    assert_eq!(main_menu_key(&mut m, Key::Esc, 0), MenuAction::Nothing);
    assert_eq!(m.focus, MenuFocus::Levels);
}

#[test]
fn menu_favorites_navigation() {
    let mut m = MainMenu::new();
    main_menu_key(&mut m, Key::Down, 3);
    main_menu_key(&mut m, Key::Down, 3);
    assert_eq!(m.focus, MenuFocus::Favorites);
    assert_eq!(m.fav_selected, 0);
    main_menu_key(&mut m, Key::Down, 3);
    main_menu_key(&mut m, Key::Down, 3);
    main_menu_key(&mut m, Key::Down, 3);
    assert_eq!(m.fav_selected, 2);
    assert_eq!(main_menu_key(&mut m, Key::Enter, 3), MenuAction::StartFavorite(2));
    assert_eq!(main_menu_key(&mut m, Key::Delete, 3), MenuAction::RemoveFavorite(2));
    clamp_favorite_selection(&mut m, 2);
    assert_eq!(m.fav_selected, 1);
    main_menu_key(&mut m, Key::Up, 2);
    main_menu_key(&mut m, Key::Up, 2);
    assert_eq!(m.focus, MenuFocus::SeedInput);
}

#[test]
fn store_navigation() {
    let mut sel = 0usize;
    assert_eq!(store_key(&mut sel, Key::Up), (StoreAction::Nothing, true));
    assert_eq!(sel, 0);
    for _ in 0..10 {
        store_key(&mut sel, Key::Down);
    }
    assert_eq!(sel, 5);
    assert_eq!(store_key(&mut sel, Key::Enter), (StoreAction::Buy(5), false));
    assert_eq!(store_key(&mut sel, Key::Esc), (StoreAction::Close, false));
}

#[test]
fn game_and_victory_keys() {
    assert_eq!(game_key(Key::Esc, false), GameAction::Quit);
    assert_eq!(game_key(Key::Char('f'), false), GameAction::ToggleFavorite);
    assert_eq!(game_key(Key::Char('d'), false), GameAction::Move(Direction::Right));
    assert_eq!(game_key(Key::Char('d'), true), GameAction::BreakWall(Direction::Right));
    assert_eq!(game_key(Key::Char('k'), true), GameAction::Nothing);
    assert_eq!(victory_key(Key::Enter), VictoryAction::Return);
    assert_eq!(victory_key(Key::Char('F')), VictoryAction::ToggleFavorite);
    assert_eq!(victory_key(Key::Up), VictoryAction::Nothing);
}

#[test]
fn chosen_level_survives_typing_a_seed() {
    let mut m = MainMenu::new();
    assert_eq!(main_menu_key(&mut m, Key::Right, 2), MenuAction::Nothing);
    assert_eq!(main_menu_key(&mut m, Key::Right, 2), MenuAction::Nothing);
    assert_eq!(main_menu_key(&mut m, Key::Down, 2), MenuAction::Nothing);
    assert_eq!(m.focus, MenuFocus::SeedInput);
    assert_eq!(m.selected, 2);
    assert_eq!(m.fav_selected, 0);
    main_menu_key(&mut m, Key::Char('4'), 2);
    main_menu_key(&mut m, Key::Char('2'), 2);
    assert_eq!(main_menu_key(&mut m, Key::Enter, 2), MenuAction::StartSeed(2, 42));
    assert_eq!(m.selected, 2);
    assert_eq!(main_menu_key(&mut m, Key::Esc, 2), MenuAction::Nothing);
    assert_eq!(m.focus, MenuFocus::Levels);
    assert_eq!(m.seed_input, vec!['4', '2']);
}
