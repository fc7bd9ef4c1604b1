pub mod board;
pub mod features;
pub mod lemmas;
pub mod moves;
pub mod piece;
pub mod protocol;

pub use board::{Board, BOARD_HEIGHT, BOARD_WIDTH};
pub use features::Features;
pub use moves::{first_minimum, Placement};
pub use piece::{shape, Piece, PieceType};
pub use protocol::{parse_move, parse_score};
