use piranhas::board::Board;
use piranhas::gamerules::{get_winner, is_finished, is_move_legal};
use piranhas::gamestate::GameState;
use piranhas::iterators::try_slide;
use piranhas::logging::{EndState, Winner};
use piranhas::setup::{get_random_state, start_state};
use piranhas::states::{Direction, Field, FieldType, Move, PlayerColor};

fn field_of(s: &str) -> FieldType {
    match s {
        "B" => FieldType::BluePlayer,
        "R" => FieldType::RedPlayer,
        "O" => FieldType::Obstacle,
        "E" => FieldType::Free,
        _ => panic!("Condensed representation has wrong entry, must be one of B, R, O, E"),
    }
}

fn from_condensed(condensed: [[&str; 10]; 10]) -> Board {
    let mut fields = [[FieldType::Free; 10]; 10];
    for ix in 0..10 {
        for iy in 0..10 {
            fields[ix][iy] = field_of(condensed[ix][iy]);
        }
    }
    Board::new(fields)
}

fn from_condensed_2(condensed: [[&str; 10]; 10]) -> GameState {
    let mut fields = [[FieldType::Free; 10]; 10];
    for ix in 0..10 {
        for iy in 0..10 {
            fields[iy][ix] = field_of(condensed[ix][iy]);
        }
    }
    GameState::new(Board::new(fields), 1)
}

const START: [[&str; 10]; 10] = [
    ["E", "B", "B", "B", "B", "B", "B", "B", "B", "E"],
    ["R", "E", "E", "E", "E", "E", "E", "E", "E", "R"],
    ["R", "E", "E", "E", "E", "E", "E", "E", "E", "R"],
    ["R", "E", "E", "E", "E", "E", "E", "E", "E", "R"],
    ["R", "E", "E", "O", "E", "E", "E", "E", "E", "R"],
    ["R", "E", "E", "E", "E", "E", "E", "E", "E", "R"],
    ["R", "E", "O", "E", "E", "E", "E", "E", "E", "R"],
    ["R", "E", "E", "E", "E", "E", "E", "E", "E", "R"],
    ["R", "E", "E", "E", "E", "E", "E", "E", "E", "R"],
    ["E", "B", "B", "B", "B", "B", "B", "B", "B", "E"],
];

#[test]
fn board_new() {
    let board = from_condensed(START);
    assert_eq!(board.get_fieldtype(1, 0).unwrap(), FieldType::RedPlayer);
}

#[test]
fn is_field_between() {
    let board = from_condensed(START);
    // diagonal
    assert!(board.is_field_between(0, 0, 9, 9, FieldType::Free));
    assert!(!board.is_field_between(0, 0, 9, 9, FieldType::RedPlayer));
    assert!(board.is_field_between(9, 9, 0, 0, FieldType::Free));
    assert!(!board.is_field_between(9, 9, 0, 0, FieldType::RedPlayer));
    assert!(board.is_field_between(0, 9, 9, 0, FieldType::Free));
    assert!(!board.is_field_between(0, 9, 9, 0, FieldType::RedPlayer));
    assert!(board.is_field_between(9, 0, 0, 9, FieldType::Free));
    assert!(!board.is_field_between(9, 0, 0, 9, FieldType::RedPlayer));
    // horizontal
    assert!(board.is_field_between(0, 0, 9, 0, FieldType::RedPlayer));
    assert!(!board.is_field_between(0, 0, 9, 0, FieldType::BluePlayer));
    assert!(board.is_field_between(9, 0, 0, 0, FieldType::RedPlayer));
    assert!(!board.is_field_between(9, 0, 0, 0, FieldType::BluePlayer));

    assert!(!board.is_field_between(3, 1, 0, 1, FieldType::BluePlayer));
    // vertical
    assert!(board.is_field_between(0, 8, 0, 1, FieldType::BluePlayer));
    assert!(!board.is_field_between(0, 8, 0, 1, FieldType::RedPlayer));
    assert!(board.is_field_between(0, 0, 0, 9, FieldType::BluePlayer));
    assert!(!board.is_field_between(0, 0, 0, 9, FieldType::RedPlayer));
}

#[test]
fn is_field() {
    let board = from_condensed(START);
    assert!(!board.is_field(1, 0, FieldType::BluePlayer));
    assert!(board.is_field(1, 0, FieldType::RedPlayer));
}

#[test]
fn free_cells_are_on_the_board() {
    let board = from_condensed(START);
    assert!(board.is_type_in(1u128 << 55, FieldType::Free));
    assert!(!board.is_type_in(1u128 << 100, FieldType::Free));
    assert!(!board.is_type_in(!((1u128 << 100) - 1), FieldType::Free));
}

#[test]
fn gamestate_new() {
    let turn = 0;
    let board = from_condensed(START);
    let state = GameState::new(board.clone(), turn);
    assert_eq!(state.board, board);
    assert_eq!(state.turn, turn);
}

#[test]
fn is_connected() {
    let turn = 0;
    let board = from_condensed(START);
    let state = GameState::new(board.clone(), turn);
    assert!(!state.is_connected(&PlayerColor::Red));
    assert!(!state.is_connected(&PlayerColor::Blue));

    let condensed = [
        ["E", "B", "B", "B", "B", "B", "B", "B", "B", "E"],
        ["R", "E", "E", "E", "E", "E", "E", "E", "E", "E"],
        ["R", "E", "E", "E", "E", "E", "E", "E", "E", "E"],
        ["R", "E", "E", "E", "E", "E", "E", "E", "E", "E"],
        ["R", "E", "E", "O", "E", "E", "E", "E", "E", "E"],
        ["R", "E", "E", "E", "E", "E", "E", "E", "E", "E"],
        ["R", "E", "O", "E", "E", "E", "E", "E", "E", "E"],
        ["R", "E", "E", "E", "B", "E", "E", "E", "E", "E"],
        ["R", "E", "E", "E", "E", "E", "E", "E", "E", "E"],
        ["E", "E", "E", "E", "E", "E", "E", "E", "E", "E"],
    ];
    let board = from_condensed(condensed);
    let state = GameState::new(board.clone(), turn);
    assert!(state.is_connected(&PlayerColor::Red));
    assert!(!state.is_connected(&PlayerColor::Blue));

    let condensed = [
        ["R", "R", "B", "B", "B", "B", "B", "B", "R", "R"],
        ["R", "R", "E", "E", "B", "E", "E", "E", "R", "R"],
        ["R", "E", "E", "E", "E", "E", "E", "E", "E", "R"],
        ["R", "E", "E", "E", "E", "E", "E", "E", "E", "R"],
        ["R", "E", "E", "O", "E", "E", "E", "E", "E", "R"],
        ["R", "E", "E", "E", "E", "E", "E", "E", "E", "R"],
        ["R", "E", "O", "E", "E", "E", "E", "E", "E", "R"],
        ["R", "E", "E", "E", "E", "E", "E", "E", "E", "R"],
        ["R", "R", "E", "E", "E", "E", "E", "E", "R", "R"],
        ["R", "R", "E", "E", "E", "E", "E", "E", "R", "R"],
    ];
    let board = from_condensed(condensed);
    let state = GameState::new(board.clone(), turn);
    assert!(!state.is_connected(&PlayerColor::Red));
    assert!(state.is_connected(&PlayerColor::Blue));

    let condensed = [
        ["E", "B", "E", "B", "B", "B", "B", "B", "B", "E"],
        ["E", "E", "E", "E", "E", "E", "E", "E", "E", "E"],
        ["B", "E", "E", "E", "E", "E", "E", "E", "E", "E"],
        ["E", "E", "E", "E", "E", "O", "E", "E", "E", "E"],
        ["E", "E", "E", "E", "E", "E", "E", "E", "E", "E"],
        ["E", "E", "E", "E", "E", "E", "E", "E", "E", "E"],
        ["E", "E", "E", "E", "O", "E", "E", "E", "E", "E"],
        ["E", "E", "E", "E", "E", "E", "E", "E", "E", "E"],
        ["E", "E", "E", "E", "E", "E", "E", "E", "E", "R"],
        ["R", "B", "B", "B", "B", "B", "B", "B", "B", "R"],
    ];
    let state = from_condensed_2(condensed);
    assert!(!state.is_connected(&PlayerColor::Red));
    assert!(!state.is_connected(&PlayerColor::Blue));
}

#[test]
fn greatest_swarm_size() {
    let turn = 0;
    let condensed = [
        ["E", "B", "B", "B", "B", "B", "B", "B", "B", "E"],
        ["R", "E", "E", "E", "E", "E", "E", "E", "E", "E"],
        ["R", "E", "E", "E", "E", "E", "E", "E", "E", "E"],
        ["R", "E", "E", "E", "E", "E", "E", "E", "E", "E"],
        ["R", "E", "E", "O", "E", "E", "E", "E", "E", "E"],
        ["R", "E", "E", "E", "E", "E", "E", "E", "E", "E"],
        ["R", "E", "O", "E", "E", "E", "E", "E", "E", "E"],
        ["R", "E", "E", "E", "B", "E", "E", "E", "E", "E"],
        ["R", "E", "E", "E", "E", "E", "E", "E", "E", "E"],
        ["E", "E", "E", "E", "E", "E", "E", "E", "E", "E"],
    ];
    let board = from_condensed(condensed);
    let state = GameState::new(board.clone(), turn);
    assert_eq!(state.greatest_swarm_size(&PlayerColor::Red), 8);
    assert_eq!(state.greatest_swarm_size(&PlayerColor::Blue), 8);

    let condensed = [
        ["E", "B", "B", "B", "B", "B", "B", "B", "B", "E"],
        ["R", "E", "E", "E", "E", "E", "E", "E", "E", "E"],
        ["R", "E", "E", "E", "E", "E", "E", "E", "E", "E"],
        ["R", "E", "E", "E", "E", "E", "R", "R", "E", "E"],
        ["R", "R", "R", "O", "E", "R", "E", "E", "E", "E"],
        ["R", "E", "E", "R", "R", "E", "E", "E", "E", "E"],
        ["R", "E", "O", "E", "E", "E", "E", "E", "E", "E"],
        ["R", "E", "E", "E", "B", "E", "E", "E", "E", "E"],
        ["R", "E", "E", "E", "E", "E", "E", "E", "E", "E"],
        ["E", "E", "E", "E", "E", "E", "E", "E", "E", "E"],
    ];
    let board = from_condensed(condensed);
    let state = GameState::new(board.clone(), turn);
    assert_eq!(state.greatest_swarm_size(&PlayerColor::Red), 15);
    assert_eq!(state.greatest_swarm_size(&PlayerColor::Blue), 8);
}

#[test]
fn get_current_player_color() {
    let turn = 3;
    let board = from_condensed(START);
    let mut state = GameState::new(board.clone(), turn);
    assert_eq!(state.get_current_player_color(), PlayerColor::Blue);
    state.turn = turn + 1;
    assert_eq!(state.get_current_player_color(), PlayerColor::Red);
}

#[test]
fn get_multipliers() {
    assert_eq!(Direction::Up.get_multipliers(), (0, 1));
    assert_eq!(Direction::UpRight.get_multipliers(), (1, 1));
    assert_eq!(Direction::UpLeft.get_multipliers(), (-1, 1));
    assert_eq!(Direction::Left.get_multipliers(), (-1, 0));
    assert_eq!(Direction::Right.get_multipliers(), (1, 0));
    assert_eq!(Direction::Down.get_multipliers(), (0, -1));
    assert_eq!(Direction::DownRight.get_multipliers(), (1, -1));
    assert_eq!(Direction::DownLeft.get_multipliers(), (-1, -1));
}

#[test]
fn get_bit_index() {
    let field = Field { fieldtype: FieldType::Free, x: 2, y: 5 };
    assert_eq!(field.get_bit_index(), 0b1 << 52);
}

#[test]
fn to_player_color() {
    assert_eq!(Some(PlayerColor::Red), FieldType::RedPlayer.to_player_color());
    assert_eq!(Some(PlayerColor::Blue), FieldType::BluePlayer.to_player_color());
    assert_eq!(None, FieldType::Obstacle.to_player_color());
    assert_eq!(None, FieldType::Free.to_player_color());
}

#[test]
fn get_opponent_color() {
    assert_eq!(PlayerColor::Red, PlayerColor::Blue.get_opponent_color());
    assert_eq!(PlayerColor::Blue, PlayerColor::Red.get_opponent_color());
}

#[test]
fn to_field_type() {
    assert_eq!(FieldType::RedPlayer, PlayerColor::Red.to_fieldtype());
    assert_eq!(FieldType::BluePlayer, PlayerColor::Blue.to_fieldtype());
}

#[test]
fn distances_on_start_board() {
    let board = from_condensed(START);
    // (x, 0) is red for x = 1..8, (0, y) and (9, y) are blue for y = 1..8
    assert_eq!(board.get_distance(1, 0, Direction::Right), 8);
    assert_eq!(board.get_distance(1, 0, Direction::Up), 2);
    assert_eq!(board.get_distance(1, 0, Direction::UpRight), 2);
    assert_eq!(board.get_distance(1, 0, Direction::UpLeft), 2);
    let state = GameState::new(board, 0);
    assert_eq!(state.get_destination_coordinates(1, 0, Direction::Right), (9, 0));
    assert_eq!(state.get_destination_coordinates(1, 0, Direction::Left), (-7, 0));
}

#[test]
fn start_moves_match_the_legality_check() {
    let state = GameState::new(from_condensed(START), 0);
    let moves = state.get_move_list();
    assert!(!moves.is_empty());
    for m in moves.iter() {
        assert!(is_move_legal(&state, m, PlayerColor::Red));
        assert!(state.board.is_field(m.x, m.y, FieldType::RedPlayer));
    }
    for x in 0..10u8 {
        for y in 0..10u8 {
            for dx in 0..10u8 {
                for dy in 0..10u8 {
                    let m = Move::new(x, y, dx, dy, Direction::Up);
                    let generated = moves.iter().any(|g| g.x == x && g.y == y && g.dest_x == dx && g.dest_y == dy);
                    assert_eq!(is_move_legal(&state, &m, PlayerColor::Red), generated);
                }
            }
        }
    }
    // every red rim piece can slide inwards across the empty board by the count of its row
    assert!(moves.iter().any(|m| m.x == 1 && m.y == 0 && m.direction == Direction::Up && m.dest_y == 2));
    // own pieces may be crossed: (1,0) slides right over its row to the empty corner
    assert!(moves.contains(&Move::new(1, 0, 9, 0, Direction::Right)));
}

#[test]
fn blocked_slides_are_not_generated() {
    // Red on (0,0) and (1,0); Blue on (1,1) which sits between (0,0) and (2,2).
    let mut fields = [[FieldType::Free; 10]; 10];
    fields[0][0] = FieldType::RedPlayer;
    fields[0][1] = FieldType::RedPlayer;
    fields[1][1] = FieldType::BluePlayer;
    fields[5][5] = FieldType::BluePlayer;
    let state = GameState::new(Board::new(fields), 0);
    // the diagonal through (0,0) holds (0,0), (1,1), (5,5): distance 3, and (1,1) is crossed
    assert_eq!(try_slide(&state.board, PlayerColor::Red, 0, 0, Direction::UpRight), None);
    // the column x = 0 holds two red pieces: (0,0) slides up by 2 over its own piece
    assert_eq!(
        try_slide(&state.board, PlayerColor::Red, 0, 0, Direction::Up),
        Some(Move::new(0, 0, 0, 2, Direction::Up))
    );
    let captures = state.get_captures();
    let moves = state.get_move_list();
    for c in captures.iter() {
        assert!(moves.contains(c));
        assert!(state.board.is_field(c.dest_x, c.dest_y, FieldType::BluePlayer));
    }
    // row y = 1 holds (0,1) and (1,1): sliding right by 2 would cross the blue piece
    assert!(!moves.iter().any(|m| m.x == 0 && m.y == 1 && m.direction == Direction::Right));
    // the line x + y = 1 holds only (0,1): it slides down-right by 1 onto (1,0)
    assert!(moves.contains(&Move::new(0, 1, 1, 0, Direction::DownRight)));
}

#[test]
fn capture_and_attack_board() {
    let mut fields = [[FieldType::Free; 10]; 10];
    fields[0][0] = FieldType::RedPlayer;
    fields[1][0] = FieldType::BluePlayer;
    let state = GameState::new(Board::new(fields), 0);
    // row y = 0 holds two pieces, so (0,0) slides right by 2 to (2,0), not a capture
    assert!(state.get_captures().is_empty());
    // the column x = 0 holds one piece: (0,0) moves up by 1
    assert!(state.get_move_list().contains(&Move::new(0, 0, 0, 1, Direction::Up)));
    let mut fields = [[FieldType::Free; 10]; 10];
    fields[0][0] = FieldType::RedPlayer;
    fields[2][0] = FieldType::BluePlayer;
    let state = GameState::new(Board::new(fields), 0);
    let captures = state.get_captures();
    assert_eq!(captures, vec![Move::new(0, 0, 2, 0, Direction::Right)]);
    assert_eq!(state.get_attack_board(&PlayerColor::Red), 1u128 << 2);
    // Blue on (2,0) slides left by 2 onto (0,0)
    assert_eq!(state.get_attack_board(&PlayerColor::Blue), 1u128);
}

#[test]
fn perform_moves_and_captures() {
    let mut fields = [[FieldType::Free; 10]; 10];
    fields[0][0] = FieldType::RedPlayer;
    fields[2][0] = FieldType::BluePlayer;
    let mut state = GameState::new(Board::new(fields), 0);
    state.perform(&Move::new(0, 0, 2, 0, Direction::Right), &PlayerColor::Red);
    assert_eq!(state.turn, 1);
    assert_eq!(state.board.red_fields.bits, 1u128 << 2);
    assert_eq!(state.board.blue_fields.bits, 0);
    assert_eq!(state.get_destination(&Move::new(0, 0, 2, 0, Direction::Right)).unwrap().fieldtype, FieldType::RedPlayer);
    assert_eq!(state.get_destination(&Move::new(0, 0, 12, 0, Direction::Right)), None);
}

#[test]
fn set_field_and_get_fields() {
    let mut board = from_condensed(START);
    board.set_field(5, 5, FieldType::Obstacle);
    assert_eq!(board.get_fieldtype(5, 5), Some(FieldType::Obstacle));
    board.set_field(0, 1, FieldType::Free);
    assert_eq!(board.get_fieldtype(0, 1), Some(FieldType::Free));
    let fields = board.get_fields();
    assert_eq!(fields[5][5], FieldType::Obstacle);
    assert_eq!(fields[1][0], FieldType::RedPlayer);
    assert_eq!(fields[0][1], FieldType::Free);
    assert_eq!(board.get_fieldtype(10, 0), None);
    assert_eq!(board.get_field(4, 3), Some(Field { x: 4, y: 3, fieldtype: FieldType::Obstacle }));
}

#[test]
fn draw_at_turn_sixty_with_equal_swarms() {
    // Red: (0,1), (0,2) and (5,5); Blue: (9,1), (9,2) and (4,8): both greatest swarms have 2 pieces.
    let mut fields = [[FieldType::Free; 10]; 10];
    fields[0][1] = FieldType::RedPlayer;
    fields[0][2] = FieldType::RedPlayer;
    fields[5][5] = FieldType::RedPlayer;
    fields[9][1] = FieldType::BluePlayer;
    fields[9][2] = FieldType::BluePlayer;
    fields[4][8] = FieldType::BluePlayer;
    let state = GameState::new(Board::new(fields), 60);
    assert!(is_finished(&state));
    assert_eq!(get_winner(&state), None);
    let end = EndState::get_end(&state, 3);
    assert!(end.winner == Winner::Draw);
    // one turn earlier nobody is connected: not finished, no winner
    let state = GameState::new(state.board, 58);
    assert!(!is_finished(&state));
    assert_eq!(get_winner(&state), None);
}

#[test]
fn connected_side_wins() {
    let mut fields = [[FieldType::Free; 10]; 10];
    fields[0][1] = FieldType::RedPlayer;
    fields[1][2] = FieldType::RedPlayer;
    fields[9][1] = FieldType::BluePlayer;
    fields[4][8] = FieldType::BluePlayer;
    let state = GameState::new(Board::new(fields), 10);
    assert!(is_finished(&state));
    assert_eq!(get_winner(&state), Some(PlayerColor::Red));
    let end = EndState::get_end(&state, 1);
    assert!(end.winner == Winner::Two);
    assert_eq!(end.color, Some(PlayerColor::Red));
    assert!(Winner::get_winner(&PlayerColor::Red, 0) == Winner::One);
    // on an odd turn the game is never finished
    let state = GameState::new(state.board, 11);
    assert!(!is_finished(&state));
    assert_eq!(get_winner(&state), None);
}

#[test]
fn random_start_positions() {
    for _ in 0..10000 {
        let state = get_random_state();
        let obstacles: Vec<(u8, u8)> = state.board.obstacle_fields.get_fields();
        assert_eq!(obstacles.len(), 2);
        let (a, b) = (obstacles[0], obstacles[1]);
        for o in [a, b] {
            assert!(2 <= o.0 && o.0 < 8 && 2 <= o.1 && o.1 < 8);
        }
        let dx = (a.0 as i8 - b.0 as i8).abs();
        let dy = (a.1 as i8 - b.1 as i8).abs();
        assert!(a.0 != b.0 && a.1 != b.1 && dx != dy);
        assert_eq!(state.turn, 0);
        assert_eq!(state.board.red_fields.count_ones(), 16);
        assert_eq!(state.board.blue_fields.count_ones(), 16);
    }
    let s = start_state((2, 3), (5, 4));
    assert_eq!(s.board.get_fieldtype(0, 1), Some(FieldType::RedPlayer));
    assert_eq!(s.board.get_fieldtype(1, 0), Some(FieldType::BluePlayer));
    assert_eq!(s.board.get_fieldtype(0, 0), Some(FieldType::Free));
    assert_eq!(s.board.get_fieldtype(5, 4), Some(FieldType::Obstacle));
}
