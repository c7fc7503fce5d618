use piranhas::bitboard::Bitboard;
use piranhas::board::Board;
use piranhas::engine::{z_square, z_turn, BitMove, Board as SearchBoard, ScoringMove, PRNG, SQ};
use piranhas::gamestate::GameState;
use piranhas::players::{LogicBasedPlayer, SingleDistancePlayer};
use piranhas::records::{ChildEdge, EntryType, MinimalState, SearchStatistics, TreeStatistics};
use piranhas::states::{Direction, FieldType, Move, PlayerColor};
use piranhas::tables::{stat_bonus, ButterflyHistory, ContinuationHistory, PieceToHistory};
use piranhas::movepick::MovePicker;
use piranhas::scoring::{mate_in, mated_in, rate_mate, texel_counts, MATE};
use piranhas::util::Helper;

fn small_state(turn: u8) -> GameState {
    let mut fields = [[FieldType::Free; 10]; 10];
    fields[0][0] = FieldType::RedPlayer;
    fields[2][1] = FieldType::RedPlayer;
    fields[2][0] = FieldType::BluePlayer;
    fields[7][7] = FieldType::BluePlayer;
    fields[5][5] = FieldType::Obstacle;
    GameState::new(Board::new(fields), turn)
}

#[test]
fn bitmove_packing() {
    let m = BitMove::from_indices(3, 2, 7, 9);
    assert_eq!(m.get_src(), SQ(23));
    assert_eq!(m.get_dest(), SQ(97));
    assert!(!m.is_null());
    assert_eq!(m.get_raw(), 23 | (97 << 7) | 0x8000);
    assert_eq!(m.from_to_key(), 23 + 97 * 100);
    let p = m.to_partial_move();
    assert_eq!((p.x, p.y, p.dest_x, p.dest_y), (3, 2, 7, 9));
    assert_eq!(BitMove::from_move(&Move::new(3, 2, 7, 9, Direction::Up)), m);
    assert!(BitMove::null().is_null());
    assert_eq!(BitMove::new(5).get_raw(), 5);
    assert!(SQ(99).is_okay());
    assert!(!SQ(100).is_okay());
}

#[test]
fn scoring_moves() {
    let m = BitMove::from_indices(1, 1, 2, 2);
    let s = ScoringMove::new_score(m, 40);
    assert_eq!(s.score(), 40);
    assert_eq!(s.negate().score(), -40);
    assert_eq!(ScoringMove::blank(i16::MIN).negate().score(), i16::MIN);
    assert_eq!(s.swap_move(BitMove::null()).bitmove(), BitMove::null());
    assert_eq!(ScoringMove::new(m).score(), 0);
    assert_eq!(ScoringMove::default(), ScoringMove::null());
}

#[test]
fn prng_and_keys() {
    let mut g = PRNG::init(1);
    assert_eq!(g.rand(), 5180492295206395165);
    assert_eq!(g.seed, 33554433);
    assert_ne!(z_square(SQ(3), PlayerColor::Red), z_square(SQ(3), PlayerColor::Blue));
    assert_ne!(z_turn(0), z_turn(1));
    assert_eq!(z_turn(7), z_turn(7));
}

#[test]
fn apply_then_undo_restores_the_position() {
    let state = small_state(0);
    let board = SearchBoard::from_state(&state);
    // (0,0) slides right by 2 onto the blue piece on (2,0)
    let capture = BitMove::from_indices(0, 0, 2, 0);
    assert!(board.is_legal(&capture));
    let mut b = board;
    let killed = b.apply_move(&capture, &PlayerColor::Red);
    assert!(killed);
    assert_eq!(b.state.turn, 1);
    assert_eq!(b.state.board.blue_fields.bits, 1u128 << 77);
    assert_ne!(b.zobrist(), board.zobrist());
    assert_eq!(b.zobrist(), SearchBoard::from_state(&b.state).zobrist());
    b.undo_move(&capture, killed, &PlayerColor::Red);
    assert_eq!(b, board);
    // a quiet move
    let quiet = BitMove::from_indices(2, 1, 2, 2);
    let mut b = board;
    let killed = b.apply_move(&quiet, &PlayerColor::Red);
    assert!(!killed);
    b.undo_move(&quiet, killed, &PlayerColor::Red);
    assert_eq!(b, board);
}

#[test]
fn search_board_move_lists() {
    let state = small_state(0);
    let board = SearchBoard::from_state(&state);
    let captures = board.get_captures();
    assert_eq!(captures, vec![BitMove::from_indices(0, 0, 2, 0)]);
    let roots = board.get_root_moves();
    assert_eq!(roots.len(), state.get_move_list().len());
    for r in roots.iter() {
        assert!(board.is_legal(&r.bit_move));
    }
    assert!(!board.is_legal(&BitMove::null()));
    assert!(!board.is_legal(&BitMove::from_indices(0, 0, 5, 5)));
    assert!(!board.is_finished());
    assert_eq!(board.winner(), None);
    let null = SearchBoard::null();
    assert_eq!(null.state.turn, 244);
}

#[test]
fn history_updates() {
    let m = BitMove::from_indices(1, 2, 3, 4);
    let mut h = ButterflyHistory::new();
    assert_eq!(h.get(PlayerColor::Red, m), 0);
    h.update(PlayerColor::Red, m, 100);
    assert_eq!(h.get(PlayerColor::Red, m), 3200);
    h.update(PlayerColor::Red, m, 100);
    assert_eq!(h.get(PlayerColor::Red, m), 5413);
    assert_eq!(h.get(PlayerColor::Blue, m), 0);
    let mut p = PieceToHistory::new();
    p.update(FieldType::RedPlayer, SQ(10), -50);
    assert_eq!(p.get(FieldType::RedPlayer, SQ(10)), -1600);
    p.update(FieldType::RedPlayer, SQ(10), 50);
    assert_eq!(p.get(FieldType::RedPlayer, SQ(10)), 85);
    for _ in 0..1000 {
        p.update(FieldType::BluePlayer, SQ(0), 936);
    }
    assert!(p.get(FieldType::BluePlayer, SQ(0)) <= 936 * 32);
    let mut c = ContinuationHistory::new();
    assert_eq!(c.get(FieldType::Obstacle, SQ(99)).get(FieldType::Free, SQ(5)), 0);
    c.clear();
    assert_eq!(stat_bonus(3), 13);
    assert_eq!(stat_bonus(17), 321);
    assert_eq!(stat_bonus(18), 0);
}

#[test]
fn helper_distances_and_swarms() {
    assert_eq!(Helper::get_distance_to_swarm(0, 0, &vec![(3, 4), (9, 9)]), 25);
    assert_eq!(Helper::get_distance_to_swarm(0, 0, &vec![]), 200);
    assert_eq!(Helper::get_distance_to_swarm(2, 2, &vec![(2, 2)]), 0);
    let target = Bitboard::from_bits(1u128 << 13);
    assert_eq!(Helper::get_distance_to_swarm_new(0, 0, &target), 3);
    assert_eq!(Helper::get_distance_to_swarm_new(9, 9, &Bitboard::new()), 9);
    // growth stays on the board: from (9,9) the cell (0,9) is 9 steps away, not fewer
    assert_eq!(Helper::get_distance_to_swarm_new(9, 9, &Bitboard::from_bits(1u128 << 90)), 9);
    assert_eq!(Helper::get_distance_to_swarm_new(9, 9, &Bitboard::from_bits(1u128 << 95)), 4);
    let target = Bitboard::from_bits(1u128 << 2);
    assert_eq!(Helper::get_distance_to_swarm_alt(0, &target, &Bitboard::from_bits(1u128 << 1)), 2);
    let wall = Bitboard::from_bits((1u128 << 1) | (1u128 << 10) | (1u128 << 11));
    assert_eq!(Helper::get_distance_to_swarm_alt(0, &target, &wall), 55);
    let state = small_state(0);
    let swarm = Helper::greatest_swarm(&state, &PlayerColor::Red);
    assert_eq!(swarm, vec![(0, 0)]);
    let (size, cells) = Helper::greatest_swarm_pair(&state, &PlayerColor::Blue);
    assert_eq!(size, 1);
    assert_eq!(cells.len(), 1);
    let swarms = Helper::get_swarms(&state, &PlayerColor::Red);
    assert_eq!(swarms, vec![(1, vec![(0, 0)]), (1, vec![(2, 1)])]);
    let b = Helper::greatest_swarm_new(&state, &PlayerColor::Red);
    assert_eq!(b.bits, 1);
    let (b, rounds) = Helper::greatest_swarm_other(&state, &PlayerColor::Red);
    assert_eq!(b.bits, 1);
    assert_eq!(rounds, 2);
}

#[test]
fn swarm_sizes_add_up() {
    let state = piranhas::setup::start_state((3, 4), (6, 3));
    for color in [PlayerColor::Red, PlayerColor::Blue] {
        let swarms = Helper::get_swarms(&state, &color);
        let total: u32 = swarms.iter().map(|(n, _)| *n as u32).sum();
        assert_eq!(total, state.board.get_fields_of(&color).count_ones());
        assert_eq!(swarms.len(), 2);
        assert_eq!(state.is_connected(&color), swarms.len() <= 1);
        assert_eq!(state.greatest_swarm_size(&color), 8);
    }
}

#[test]
fn spread_players() {
    let state = small_state(0);
    assert_eq!(LogicBasedPlayer::get_sums(&state), (4, 1, 2, 1, 2));
    assert_eq!(
        LogicBasedPlayer::easy_rate(4, 1, 2, 1, 2, &Move::new(2, 1, 1, 1, Direction::Left)),
        2
    );
    let best = LogicBasedPlayer::on_state(&state).unwrap();
    assert!(state.get_move_list().contains(&best));
    let empty = GameState::new(Board::new([[FieldType::Free; 10]; 10]), 0);
    assert_eq!(LogicBasedPlayer::on_state(&empty), None);
    assert_eq!(
        SingleDistancePlayer::rate(&Move::new(0, 0, 0, 2, Direction::Up), &vec![(0, 3)]),
        8
    );
    // red on (0,0) and (2,1); the greatest swarm is (0,0) (first of two equal ones).
    // (2,1) moves closest to it: sliding left by 2 along row 1 lands on (0,1), at distance 1.
    let best = SingleDistancePlayer::best_move(&state).unwrap();
    let swarm = Helper::greatest_swarm(&state, &PlayerColor::Red);
    let best_rate = SingleDistancePlayer::rate(&best, &swarm);
    for m in state.get_move_list().iter() {
        assert!(SingleDistancePlayer::rate(m, &swarm) <= best_rate);
    }
    assert_eq!(SingleDistancePlayer::best_move(&empty), None);
}

#[test]
fn records() {
    let state = small_state(4);
    let key = MinimalState::from_state(&state);
    assert_eq!(key.turn, 4);
    assert_eq!(key.red_fields, state.board.red_fields.bits);
    assert_eq!(MinimalState::empty().turn, 255);
    assert_eq!(SearchStatistics::new().nodes, 0);
    assert_eq!(TreeStatistics::empty().nodes, 1);
    assert_eq!(TreeStatistics::filled(5, 3, 1).max_depth, 3);
    let edge = ChildEdge::new(key, Move::new(0, 0, 1, 1, Direction::UpRight), false);
    assert!(!edge.added);
    assert!(EntryType::Exact != EntryType::LowerBound);
}

#[test]
fn move_picker_order() {
    let state = small_state(0);
    let board = SearchBoard::from_state(&state);
    let ttm = BitMove::from_indices(0, 0, 2, 0);
    let killer = BitMove::from_indices(2, 1, 2, 3);
    let bad_killer = BitMove::from_indices(0, 0, 9, 9);
    let counter = BitMove::from_indices(0, 0, 0, 1);
    let mut picker = MovePicker::main_search(&board, ttm, [bad_killer, killer], counter);
    assert_eq!(picker.next(), Some(ttm));
    assert_eq!(picker.next(), Some(killer));
    assert_eq!(picker.next(), Some(counter));
    let mut rest = Vec::new();
    while let Some(m) = picker.next() {
        assert!(board.is_legal(&m));
        assert!(m != ttm && m != killer && m != counter);
        rest.push(m);
    }
    let all: Vec<BitMove> = board.get_root_moves().iter().map(|s| s.bit_move).collect();
    let expected: Vec<BitMove> = all.into_iter().filter(|m| *m != ttm && *m != killer && *m != counter).collect();
    assert_eq!(rest, expected);
    assert_eq!(picker.next(), None);
    // without a table move the killers come first, each once
    let mut picker = MovePicker::main_search(&board, BitMove::null(), [killer, killer], BitMove::null());
    assert_eq!(picker.next(), Some(killer));
    let mut count = 0;
    while let Some(m) = picker.next() {
        assert_ne!(m, killer);
        count += 1;
    }
    assert_eq!(count, board.get_root_moves().len() - 1);
}

#[test]
fn mate_scores() {
    // Red connected with 2, Blue split: Red wins with bonus 2 - 1
    let mut fields = [[FieldType::Free; 10]; 10];
    fields[0][1] = FieldType::RedPlayer;
    fields[1][2] = FieldType::RedPlayer;
    fields[9][1] = FieldType::BluePlayer;
    fields[4][8] = FieldType::BluePlayer;
    let state = GameState::new(Board::new(fields), 10);
    assert_eq!(rate_mate(&state), MATE + 1 + 16);
    // both connected and equal: draw
    let mut fields = [[FieldType::Free; 10]; 10];
    fields[0][1] = FieldType::RedPlayer;
    fields[9][1] = FieldType::BluePlayer;
    let state = GameState::new(Board::new(fields), 10);
    assert_eq!(rate_mate(&state), 0);
    assert_eq!(mate_in(3), 199997);
    assert_eq!(mated_in(3), -199997);
    let state = small_state(0);
    let (dist, swarm, center, border, len) = texel_counts(&state, &PlayerColor::Red, 1u128 << 12, 1u128);
    // red on (0,0) and (2,1): the greatest swarm is (0,0); (2,1) is two steps away
    assert_eq!((dist, swarm, center, border, len), (2, 1, 1, 1, 2));
}

#[test]
fn well_formed_start_and_terminal_rules() {
    let state = piranhas::setup::start_state((2, 2), (4, 3));
    let moves = state.get_move_list();
    assert!(!moves.is_empty());
    for m in moves.iter() {
        let mut next = state;
        next.perform(m, &PlayerColor::Red);
        assert_eq!(next.board.red_fields.bits & next.board.blue_fields.bits, 0);
        assert_eq!(next.board.red_fields.bits & next.board.obstacle_fields.bits, 0);
        assert_eq!(next.board.blue_fields.bits & next.board.obstacle_fields.bits, 0);
        assert_eq!((next.board.red_fields.bits | next.board.blue_fields.bits | next.board.obstacle_fields.bits) >> 100, 0);
        // no generated move crosses a blue piece
        let dx = (m.dest_x as i8 - m.x as i8).abs();
        let dy = (m.dest_y as i8 - m.y as i8).abs();
        if dx > 1 || dy > 1 {
            assert!(!state.board.is_field_between(m.x, m.y, m.dest_x, m.dest_y, FieldType::BluePlayer));
        }
    }
}
