use rusty_2048::board::GameObjects;
use rusty_2048::render::{render_board, render_board_debug};

fn session(board: [[u32; 4]; 4]) -> GameObjects {
    GameObjects { board, score: 0, start_time: 0, frequency: 7 }
}

fn expected_frame(board: [[u32; 4]; 4]) -> String {
    let mut text = String::from("\x1B[2J\x1B[2;H --A Rusty 2048--\x1B[3;H\n");
    for row in board {
        text.push_str("\x1B[2K");
        for v in row {
            if v == 0 {
                text.push_str(&format!(" \x1B[0m{:>3} \x1B[0m", v));
            } else {
                text.push_str(&format!(" \x1B[47m\x1B[30m\x1B[1m{:>3} \x1B[0m", v));
            }
        }
        text.push_str("\n\n");
    }
    text.push('\n');
    text
}

fn expected_plain(board: [[u32; 4]; 4]) -> String {
    let mut text = String::new();
    for row in board {
        for v in row {
            text.push_str(&format!("{:>3} ", v));
        }
        text.push('\n');
    }
    text.push('\n');
    text
}

#[test]
fn frame_of_the_initial_layout() {
    let game = GameObjects::new(7, 0).unwrap();
    let tile = " \x1B[47m\x1B[30m\x1B[1m  2 \x1B[0m";
    let empty = " \x1B[0m  0 \x1B[0m";
    let expected = format!(
        "\x1B[2J\x1B[2;H --A Rusty 2048--\x1B[3;H\n\
         \x1B[2K{t}{t}{t}{t}\n\n\
         \x1B[2K{e}{e}{t}{e}\n\n\
         \x1B[2K{e}{e}{t}{t}\n\n\
         \x1B[2K{t}{t}{t}{t}\n\n\n",
        t = tile,
        e = empty
    );
    assert_eq!(render_board(&game), expected);
}

#[test]
fn plain_frame_of_the_initial_layout() {
    let game = GameObjects::new(7, 0).unwrap();
    assert_eq!(
        render_board_debug(&game),
        "  2   2   2   2 \n  0   0   2   0 \n  0   0   2   2 \n  2   2   2   2 \n\n"
    );
}

#[test]
fn numbers_are_right_aligned_in_three_columns() {
    let game = session([[0, 2, 16, 128], [0, 0, 0, 0], [0, 0, 0, 0], [0, 0, 0, 0]]);
    let plain = render_board_debug(&game);
    assert!(plain.starts_with("  0   2  16 128 \n"));
}

#[test]
fn longer_numbers_are_shown_in_full() {
    let board = [[1024, 65536, 4294967295, 100], [99, 10, 9, 0], [0; 4], [0; 4]];
    let game = session(board);
    let plain = render_board_debug(&game);
    assert!(plain.starts_with("1024 65536 4294967295 100 \n 99  10   9   0 \n"));
    assert_eq!(plain, expected_plain(board));
    assert_eq!(render_board(&game), expected_frame(board));
}

#[test]
fn frames_agree_with_formatting_on_many_boards() {
    let boards = [
        [[0; 4]; 4],
        [[2, 4, 8, 16], [32, 64, 128, 256], [512, 1024, 2048, 4096], [8192, 16384, 32768, 65536]],
        [[7, 70, 700, 7000], [1, 11, 111, 1111], [0, 0, 0, 0], [999, 1000, 1001, 5]],
    ];
    for board in boards {
        let game = session(board);
        assert_eq!(render_board(&game), expected_frame(board));
        assert_eq!(render_board_debug(&game), expected_plain(board));
    }
}
