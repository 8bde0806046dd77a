pub mod cable;
pub mod switch;
pub mod router;
pub mod desktop;
