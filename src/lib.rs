//! Rules engine for a four-player territory game played with polyomino
//! pieces on a 20 by 20 board.

pub mod piece;
pub mod logic;
