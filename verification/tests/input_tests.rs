use rusty_2048::board::{Direction, GameObjects};
use rusty_2048::input::{decode_input, decode_stream, step, Command, Step};

#[test]
fn letters_a_to_d_are_the_four_directions() {
    assert_eq!(decode_input(Some(65)), Command::Shift(Direction::UP));
    assert_eq!(decode_input(Some(66)), Command::Shift(Direction::DOWN));
    assert_eq!(decode_input(Some(67)), Command::Shift(Direction::RIGHT));
    assert_eq!(decode_input(Some(68)), Command::Shift(Direction::LEFT));
}

#[test]
fn prefix_bytes_are_dropped() {
    assert_eq!(decode_input(Some(27)), Command::Ignore);
    assert_eq!(decode_input(Some(91)), Command::Ignore);
}

#[test]
fn q_and_the_end_of_the_stream_end_the_session() {
    assert_eq!(decode_input(Some(113)), Command::Quit);
    assert_eq!(decode_input(None), Command::Quit);
}

#[test]
fn every_other_byte_is_ignored() {
    for byte in 0..=255u8 {
        if ![65, 66, 67, 68, 113].contains(&byte) {
            assert_eq!(decode_input(Some(byte)), Command::Ignore);
        }
    }
}

#[test]
fn arrow_up_sequence_is_exactly_one_up_move() {
    assert_eq!(decode_stream(&[27, 91, 65]), vec![Direction::UP]);
}

#[test]
fn arrow_up_sequence_moves_the_board_up_once() {
    let mut game = GameObjects::new(1, 0).unwrap();
    let mut steps = Vec::new();
    for byte in [27u8, 91, 65] {
        steps.push(step(&mut game, Some(byte)));
    }
    assert_eq!(steps, vec![Step::Idle, Step::Idle, Step::Moved(Direction::UP)]);
    assert_eq!(game.board, [[4, 4, 4, 4], [2, 2, 4, 2], [2, 2, 2, 2], [2, 2, 2, 2]]);
}

#[test]
fn q_stops_without_touching_the_board() {
    let mut game = GameObjects::new(7, 0).unwrap();
    let before = game.board;
    assert_eq!(step(&mut game, Some(113)), Step::Stop);
    assert_eq!(game.board, before);
    assert_eq!(decode_stream(&[113]), vec![]);
}

#[test]
fn empty_stream_stops() {
    let mut game = GameObjects::new(7, 0).unwrap();
    let before = game.board;
    assert_eq!(step(&mut game, None), Step::Stop);
    assert_eq!(game.board, before);
    assert_eq!(decode_stream(&[]), vec![]);
}

#[test]
fn ignored_bytes_leave_the_session_as_it_is() {
    let mut game = GameObjects::new(7, 0).unwrap();
    let before = game.board;
    for byte in [27u8, 91, 0, 10, 32, 97, 255] {
        assert_eq!(step(&mut game, Some(byte)), Step::Idle);
    }
    assert_eq!(game.board, before);
}

#[test]
fn all_four_arrow_keys_in_a_stream() {
    let keys = [27, 91, 65, 27, 91, 66, 27, 91, 67, 27, 91, 68];
    assert_eq!(
        decode_stream(&keys),
        vec![Direction::UP, Direction::DOWN, Direction::RIGHT, Direction::LEFT]
    );
}

#[test]
fn nothing_after_q_is_read() {
    assert_eq!(decode_stream(&[65, 113, 66, 67]), vec![Direction::UP]);
    assert_eq!(decode_stream(&[113, 65]), vec![]);
}

#[test]
fn letter_typed_alone_moves_as_the_arrow_does() {
    assert_eq!(decode_stream(&[68]), vec![Direction::LEFT]);
    assert_eq!(decode_stream(&[97, 65, 98]), vec![Direction::UP]);
}
