//! A sliding-tile puzzle on a four-by-four grid: the line algorithm that
//! compacts and merges tiles, the spawner that refills empty cells, the board
//! engine that applies both along a direction, the decoder that turns raw
//! terminal bytes into moves, and the frames that show a board.

pub mod board;
pub mod board_laws;
pub mod input;
pub mod laws;
pub mod line;
pub mod render;
pub mod spawn;
