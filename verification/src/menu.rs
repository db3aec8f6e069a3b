use vstd::prelude::*;
use crate::levels::LEVEL_COUNT;
use crate::store::STORE_ITEM_COUNT;
use crate::types::{spec_delta, Direction};

verus! {

/// A key press, as far as the screens care.
#[derive(Clone, Copy, Debug, PartialEq, Eq, Structural)]
pub enum Key {
    Char(char),
    Up,
    Down,
    Left,
    Right,
    Enter,
    Esc,
    Backspace,
    Delete,
    Other,
}

/// The ship's moves: Z Q S D (either case) or the arrow keys.
pub open spec fn spec_direction_from_key(key: Key) -> Option<Direction> {
    match key {
        Key::Char(c) => if c == 'z' || c == 'Z' {
            Some(Direction::Up)
        } else if c == 's' || c == 'S' {
            Some(Direction::Down)
        } else if c == 'q' || c == 'Q' {
            Some(Direction::Left)
        } else if c == 'd' || c == 'D' {
            Some(Direction::Right)
        } else {
            None
        },
        Key::Up => Some(Direction::Up),
        Key::Down => Some(Direction::Down),
        Key::Left => Some(Direction::Left),
        Key::Right => Some(Direction::Right),
        _ => None,
    }
}

/// Each move key moves the ship the way it points on screen (rows grow
/// downwards): Up and Z one row up, Down and S one row down, Left and Q one
/// column left, Right and D one column right; a letter moves the same way in
/// either case, and no other key moves the ship.
pub proof fn law_move_keys_point_their_way(c: char)
    ensures
        spec_direction_from_key(Key::Up) matches Some(d) && spec_delta(d) == (0i32, -1i32),
        spec_direction_from_key(Key::Down) matches Some(d) && spec_delta(d) == (0i32, 1i32),
        spec_direction_from_key(Key::Left) matches Some(d) && spec_delta(d) == (-1i32, 0i32),
        spec_direction_from_key(Key::Right) matches Some(d) && spec_delta(d) == (1i32, 0i32),
        spec_direction_from_key(Key::Char('z')) == spec_direction_from_key(Key::Up),
        spec_direction_from_key(Key::Char('s')) == spec_direction_from_key(Key::Down),
        spec_direction_from_key(Key::Char('q')) == spec_direction_from_key(Key::Left),
        spec_direction_from_key(Key::Char('d')) == spec_direction_from_key(Key::Right),
        spec_direction_from_key(Key::Char('Z')) == spec_direction_from_key(Key::Up),
        spec_direction_from_key(Key::Char('S')) == spec_direction_from_key(Key::Down),
        spec_direction_from_key(Key::Char('Q')) == spec_direction_from_key(Key::Left),
        spec_direction_from_key(Key::Char('D')) == spec_direction_from_key(Key::Right),
        !(c == 'z' || c == 'Z' || c == 's' || c == 'S' || c == 'q' || c == 'Q' || c == 'd' || c == 'D')
            ==> spec_direction_from_key(Key::Char(c)) is None,
        spec_direction_from_key(Key::Enter) is None && spec_direction_from_key(Key::Esc) is None,
        spec_direction_from_key(Key::Backspace) is None && spec_direction_from_key(Key::Delete) is None,
        spec_direction_from_key(Key::Other) is None,
{
}

/// The direction a key moves the ship in, if any.
pub fn direction_from_key(key: Key) -> (r: Option<Direction>)
    ensures
        r == spec_direction_from_key(key),
{
    match key {
        Key::Char(c) => {
            if c == 'z' || c == 'Z' {
                Some(Direction::Up)
            } else if c == 's' || c == 'S' {
                Some(Direction::Down)
            } else if c == 'q' || c == 'Q' {
                Some(Direction::Left)
            } else if c == 'd' || c == 'D' {
                Some(Direction::Right)
            } else {
                None
            }
        }
        Key::Up => Some(Direction::Up),
        Key::Down => Some(Direction::Down),
        Key::Left => Some(Direction::Left),
        Key::Right => Some(Direction::Right),
        _ => None,
    }
}

/// Which part of the main menu has the focus.
#[derive(Clone, Copy, Debug, PartialEq, Eq, Structural)]
pub enum MenuFocus {
    Levels,
    SeedInput,
    Favorites,
}

/// The main menu: the level selected, the focused zone, the favourite
/// selected and the seed being typed.
pub struct MainMenu {
    pub selected: usize,
    pub focus: MenuFocus,
    pub fav_selected: usize,
    pub seed_input: Vec<char>,
}

/// What a key asks of the main menu.
#[derive(Clone, Copy, Debug, PartialEq, Eq, Structural)]
pub enum MenuAction {
    Nothing,
    Quit,
    OpenStore,
    StartLevel(usize),
    StartSeed(usize, u32),
    StartFavorite(usize),
    RemoveFavorite(usize),
}

/// Longest seed that can be typed.
pub const SEED_MAX_DIGITS: usize = 10;

pub open spec fn is_digit(c: char) -> bool {
    '0' <= c && c <= '9'
}

/// The number a string of decimal digits writes.
pub open spec fn digits_value(s: Seq<char>) -> nat
    decreases s.len(),
{
    if s.len() == 0 {
        0
    } else {
        digits_value(s.drop_last()) * 10 + (s.last() as nat - '0' as nat) as nat
    }
}

/// The seed typed: `None` when nothing is typed or it does not fit a `u32`.
pub open spec fn spec_parse_seed(s: Seq<char>) -> Option<u32> {
    if s.len() == 0 || digits_value(s) > u32::MAX {
        None
    } else {
        Some(digits_value(s) as u32)
    }
}

/// Ten to the power `n`.
pub open spec fn pow10(n: nat) -> nat
    decreases n,
{
    if n == 0 { 1 } else { 10 * pow10((n - 1) as nat) }
}

/// Reads the typed seed, which holds decimal digits only.
pub fn parse_seed(input: &Vec<char>) -> (r: Option<u32>)
    requires
        input@.len() <= SEED_MAX_DIGITS,
        forall|i: int| 0 <= i < input@.len() ==> is_digit(#[trigger] input@[i]),
    ensures
        r == spec_parse_seed(input@),
{
    if input.len() == 0 {
        return None;
    }
    let mut value: u64 = 0;
    let mut i: usize = 0;
    while i < input.len()
        invariant
            i <= input@.len(),
            input@.len() <= SEED_MAX_DIGITS,
            forall|j: int| 0 <= j < input@.len() ==> is_digit(#[trigger] input@[j]),
            value == digits_value(input@.subrange(0, i as int)),
            value < pow10(i as nat),
            pow10(i as nat) <= 10_000_000_000,
        decreases input@.len() - i,
    {
        let c: char = input[i];
        assert(is_digit(input@[i as int]));
        let d: u64 = (c as u64) - ('0' as u64);
        proof {
            assert(input@.subrange(0, i + 1).drop_last() =~= input@.subrange(0, i as int));
            assert(pow10((i + 1) as nat) == 10 * pow10(i as nat));
            lemma_pow10_grows(i as nat);
        }
        value = value * 10 + d;
        i = i + 1;
    }
    proof {
        assert(input@.subrange(0, input@.len() as int) =~= input@);
    }
    if value > 0xFFFF_FFFF {
        None
    } else {
        Some(value as u32)
    }
}

proof fn lemma_pow10_grows(n: nat)
    requires
        n <= SEED_MAX_DIGITS - 1,
    ensures
        pow10(n) <= 1_000_000_000,
{
    reveal_with_fuel(pow10, 11);
    if n == 0 {
    } else if n == 1 {
    } else if n == 2 {
    } else if n == 3 {
    } else if n == 4 {
    } else if n == 5 {
    } else if n == 6 {
    } else if n == 7 {
    } else if n == 8 {
    } else {
        assert(n == 9);
    }
}

/// The menu is consistent: a level in range and a seed of at most ten digits.
pub open spec fn menu_ok(m: MainMenu) -> bool {
    &&& m.selected < LEVEL_COUNT
    &&& m.seed_input@.len() <= SEED_MAX_DIGITS
    &&& forall|i: int| 0 <= i < m.seed_input@.len() ==> is_digit(#[trigger] m.seed_input@[i])
}

impl MainMenu {
    /// The menu as the game opens: first level, focus on the levels.
    pub fn new() -> (r: Self)
        ensures
            menu_ok(r),
            r.selected == 0,
            r.focus == MenuFocus::Levels,
            r.fav_selected == 0,
            r.seed_input@.len() == 0,
    {
        MainMenu { selected: 0, focus: MenuFocus::Levels, fav_selected: 0, seed_input: Vec::new() }
    }
}

/// Handles a key on the main menu, given the number of favourites. While the
/// seed is being typed: Esc or Up leave the field, Down goes to the
/// favourites, Backspace or Delete erase a digit, digits are typed (up to ten),
/// Enter starts the selected level on the typed seed if it reads as a `u32`.
/// Elsewhere: Esc quits, S opens the store, Left/Right choose a level, Up/Down
/// move between the zones and along the favourites, Enter starts the level or
/// the favourite, Delete/Backspace remove the selected favourite.
pub fn main_menu_key(menu: &mut MainMenu, key: Key, favorites_len: usize) -> (r: MenuAction)
    requires
        menu_ok(*old(menu)),
    ensures
        menu_ok(*final(menu)),
        old(menu).focus == MenuFocus::SeedInput ==> match key {
            Key::Esc | Key::Up => r == MenuAction::Nothing && final(menu).focus == MenuFocus::Levels
                && final(menu).seed_input@ == old(menu).seed_input@,
            Key::Down => r == MenuAction::Nothing && final(menu).focus == MenuFocus::Favorites
                && final(menu).fav_selected == 0 && final(menu).seed_input@ == old(menu).seed_input@,
            Key::Backspace | Key::Delete => r == MenuAction::Nothing && final(menu).focus == old(menu).focus
                && final(menu).seed_input@ == (if old(menu).seed_input@.len() > 0 {
                    old(menu).seed_input@.drop_last()
                } else {
                    old(menu).seed_input@
                }),
            Key::Char(c) => r == MenuAction::Nothing && final(menu).focus == old(menu).focus
                && final(menu).seed_input@ == (if is_digit(c) && old(menu).seed_input@.len() < SEED_MAX_DIGITS {
                    old(menu).seed_input@.push(c)
                } else {
                    old(menu).seed_input@
                }),
            Key::Enter => final(menu).seed_input@ == old(menu).seed_input@ && final(menu).focus == old(menu).focus
                && r == match spec_parse_seed(old(menu).seed_input@) {
                    Some(seed) => MenuAction::StartSeed(old(menu).selected, seed),
                    None => MenuAction::Nothing,
                },
            _ => r == MenuAction::Nothing && final(menu).seed_input@ == old(menu).seed_input@
                && final(menu).focus == old(menu).focus,
        },
        old(menu).focus != MenuFocus::SeedInput ==> final(menu).seed_input@ == old(menu).seed_input@ && match key {
            Key::Esc => r == MenuAction::Quit,
            Key::Char(c) => r == (if c == 's' || c == 'S' { MenuAction::OpenStore } else { MenuAction::Nothing }),
            Key::Left => r == MenuAction::Nothing && final(menu).selected == (
                if old(menu).focus == MenuFocus::Levels && old(menu).selected > 0 { old(menu).selected - 1 } else { old(menu).selected as int }),
            Key::Right => r == MenuAction::Nothing && final(menu).selected == (
                if old(menu).focus == MenuFocus::Levels && old(menu).selected + 1 < LEVEL_COUNT { old(menu).selected + 1 } else { old(menu).selected as int }),
            Key::Down => r == MenuAction::Nothing && (if old(menu).focus == MenuFocus::Levels {
                final(menu).focus == MenuFocus::SeedInput
            } else {
                final(menu).focus == MenuFocus::Favorites && final(menu).fav_selected == (
                    if old(menu).fav_selected + 1 < favorites_len { old(menu).fav_selected + 1 } else { old(menu).fav_selected as int })
            }),
            Key::Up => r == MenuAction::Nothing && (if old(menu).focus == MenuFocus::Favorites {
                if old(menu).fav_selected == 0 {
                    final(menu).focus == MenuFocus::SeedInput
                } else {
                    final(menu).focus == MenuFocus::Favorites && final(menu).fav_selected == old(menu).fav_selected - 1
                }
            } else {
                final(menu).focus == old(menu).focus
            }),
            Key::Enter => r == (if old(menu).focus == MenuFocus::Levels {
                MenuAction::StartLevel(old(menu).selected)
            } else {
                MenuAction::StartFavorite(old(menu).fav_selected)
            }),
            Key::Delete | Key::Backspace => r == (if old(menu).focus == MenuFocus::Favorites {
                MenuAction::RemoveFavorite(old(menu).fav_selected)
            } else {
                MenuAction::Nothing
            }),
            _ => r == MenuAction::Nothing,
        },
        old(menu).focus == MenuFocus::SeedInput ==> {
            &&& final(menu).selected == old(menu).selected
            &&& (!(key is Down) ==> final(menu).fav_selected == old(menu).fav_selected)
        },
        old(menu).focus != MenuFocus::SeedInput ==> {
            &&& (!(key is Left) && !(key is Right) ==> final(menu).selected == old(menu).selected)
            &&& (!(key is Down) && !(key is Up) ==> final(menu).focus == old(menu).focus
                && final(menu).fav_selected == old(menu).fav_selected)
            &&& (key is Down && old(menu).focus == MenuFocus::Levels ==> final(menu).fav_selected == old(menu).fav_selected)
            &&& (key is Up && (old(menu).focus != MenuFocus::Favorites || old(menu).fav_selected == 0)
                ==> final(menu).fav_selected == old(menu).fav_selected)
        },
{
    match menu.focus {
        MenuFocus::SeedInput => match key {
            Key::Esc | Key::Up => {
                menu.focus = MenuFocus::Levels;
                MenuAction::Nothing
            }
            Key::Down => {
                menu.focus = MenuFocus::Favorites;
                menu.fav_selected = 0;
                MenuAction::Nothing
            }
            Key::Backspace | Key::Delete => {
                if menu.seed_input.len() > 0 {
                    let _last: Option<char> = menu.seed_input.pop();
                }
                MenuAction::Nothing
            }
            Key::Char(c) => {
                if '0' <= c && c <= '9' && menu.seed_input.len() < SEED_MAX_DIGITS {
                    menu.seed_input.push(c);
                }
                MenuAction::Nothing
            }
            Key::Enter => match parse_seed(&menu.seed_input) {
                Some(seed) => MenuAction::StartSeed(menu.selected, seed),
                None => MenuAction::Nothing,
            },
            _ => MenuAction::Nothing,
        },
        _ => match key {
            Key::Esc => MenuAction::Quit,
            Key::Char(c) => {
                if c == 's' || c == 'S' {
                    MenuAction::OpenStore
                } else {
                    MenuAction::Nothing
                }
            }
            Key::Left => {
                if menu.focus == MenuFocus::Levels && menu.selected > 0 {
                    menu.selected = menu.selected - 1;
                }
                MenuAction::Nothing
            }
            Key::Right => {
                if menu.focus == MenuFocus::Levels && menu.selected + 1 < LEVEL_COUNT {
                    menu.selected = menu.selected + 1;
                }
                MenuAction::Nothing
            }
            Key::Down => {
                if menu.focus == MenuFocus::Levels {
                    menu.focus = MenuFocus::SeedInput;
                } else if menu.fav_selected < favorites_len && menu.fav_selected + 1 < favorites_len {
                    menu.fav_selected = menu.fav_selected + 1;
                }
                MenuAction::Nothing
            }
            Key::Up => {
                if menu.focus == MenuFocus::Favorites {
                    if menu.fav_selected == 0 {
                        menu.focus = MenuFocus::SeedInput;
                    } else {
                        menu.fav_selected = menu.fav_selected - 1;
                    }
                }
                MenuAction::Nothing
            }
            Key::Enter => {
                if menu.focus == MenuFocus::Levels {
                    MenuAction::StartLevel(menu.selected)
                } else {
                    MenuAction::StartFavorite(menu.fav_selected)
                }
            }
            Key::Delete | Key::Backspace => {
                if menu.focus == MenuFocus::Favorites {
                    MenuAction::RemoveFavorite(menu.fav_selected)
                } else {
                    MenuAction::Nothing
                }
            }
            _ => MenuAction::Nothing,
        },
    }
}

/// After favourite removal, the selection steps back when it points past the
/// end of the list.
pub fn clamp_favorite_selection(menu: &mut MainMenu, favorites_len: usize)
    ensures
        final(menu).fav_selected == (if old(menu).fav_selected > 0 && old(menu).fav_selected >= favorites_len {
            old(menu).fav_selected - 1
        } else {
            old(menu).fav_selected as int
        }),
        final(menu).selected == old(menu).selected,
        final(menu).focus == old(menu).focus,
        final(menu).seed_input@ == old(menu).seed_input@,
{
    if menu.fav_selected > 0 && menu.fav_selected >= favorites_len {
        menu.fav_selected = menu.fav_selected - 1;
    }
}

/// What a key asks of the store screen.
#[derive(Clone, Copy, Debug, PartialEq, Eq, Structural)]
pub enum StoreAction {
    Nothing,
    Close,
    Buy(usize),
}

/// Handles a key in the store: Esc closes it, Up/Down move along the items
/// (clearing the last purchase message), Enter buys the selected item.
/// Returns the action and whether the purchase message is to be cleared.
pub fn store_key(selected_item: &mut usize, key: Key) -> (r: (StoreAction, bool))
    requires
        *old(selected_item) < STORE_ITEM_COUNT,
    ensures
        *final(selected_item) < STORE_ITEM_COUNT,
        match key {
            Key::Esc => r == (StoreAction::Close, false) && *final(selected_item) == *old(selected_item),
            Key::Up => r == (StoreAction::Nothing, true) && *final(selected_item) == (
                if *old(selected_item) > 0 { *old(selected_item) - 1 } else { 0 }),
            Key::Down => r == (StoreAction::Nothing, true) && *final(selected_item) == (
                if *old(selected_item) + 1 < STORE_ITEM_COUNT { *old(selected_item) + 1 } else { *old(selected_item) as int }),
            Key::Enter => r == (StoreAction::Buy(*old(selected_item)), false) && *final(selected_item) == *old(selected_item),
            _ => r == (StoreAction::Nothing, false) && *final(selected_item) == *old(selected_item),
        },
{
    match key {
        Key::Esc => (StoreAction::Close, false),
        Key::Up => {
            if *selected_item > 0 {
                *selected_item = *selected_item - 1;
            }
            (StoreAction::Nothing, true)
        }
        Key::Down => {
            if *selected_item + 1 < STORE_ITEM_COUNT {
                *selected_item = *selected_item + 1;
            }
            (StoreAction::Nothing, true)
        }
        Key::Enter => (StoreAction::Buy(*selected_item), false),
        _ => (StoreAction::Nothing, false),
    }
}

/// What a key asks during a game.
#[derive(Clone, Copy, Debug, PartialEq, Eq, Structural)]
pub enum GameAction {
    Nothing,
    Quit,
    ToggleFavorite,
    Move(Direction),
    BreakWall(Direction),
}

/// Handles a key during a game: Esc leaves, F toggles the map as favourite,
/// a move key moves the ship, or fires at the wall with Ctrl held.
pub fn game_key(key: Key, ctrl: bool) -> (r: GameAction)
    ensures
        r == match key {
            Key::Esc => GameAction::Quit,
            Key::Char(c) if c == 'f' || c == 'F' => GameAction::ToggleFavorite,
            _ => match spec_direction_from_key(key) {
                Some(d) => if ctrl { GameAction::BreakWall(d) } else { GameAction::Move(d) },
                None => GameAction::Nothing,
            },
        },
{
    match key {
        Key::Esc => GameAction::Quit,
        Key::Char(c) if c == 'f' || c == 'F' => GameAction::ToggleFavorite,
        _ => match direction_from_key(key) {
            Some(d) => {
                if ctrl {
                    GameAction::BreakWall(d)
                } else {
                    GameAction::Move(d)
                }
            }
            None => GameAction::Nothing,
        },
    }
}

/// What a key asks of the victory dialog.
#[derive(Clone, Copy, Debug, PartialEq, Eq, Structural)]
pub enum VictoryAction {
    Nothing,
    Return,
    ToggleFavorite,
}

/// Handles a key on the victory dialog: Enter or Esc go back to the menu, F
/// toggles the map as favourite.
pub fn victory_key(key: Key) -> (r: VictoryAction)
    ensures
        r == match key {
            Key::Enter | Key::Esc => VictoryAction::Return,
            Key::Char(c) if c == 'f' || c == 'F' => VictoryAction::ToggleFavorite,
            _ => VictoryAction::Nothing,
        },
{
    match key {
        Key::Enter | Key::Esc => VictoryAction::Return,
        Key::Char(c) if c == 'f' || c == 'F' => VictoryAction::ToggleFavorite,
        _ => VictoryAction::Nothing,
    }
}

} // verus!
