//! A bitboard chess core: pseudo-legal move generation with attack detection,
//! make/unmake with an incrementally maintained Zobrist hash, and a
//! depth-bounded alpha-beta search with quiescence and a transposition cache.

pub mod bits;
pub mod text;
pub mod bitboard;
pub mod color;
pub mod chess_board;
pub mod square;
pub mod flags;
pub mod moves;
pub mod move_list;
pub mod move_maps;
pub mod zobrist_numbers;
pub mod transposition_table;
pub mod game_state;
pub mod make_unmake;
pub mod rules;
pub mod laws;
pub mod attacks;
pub mod generation;
pub mod move_generator;
pub mod soundness;
pub mod attack_laws;
pub mod generation_laws;
pub mod simple_eval;
pub mod perft;
pub mod search;
pub mod negamax;
pub mod variation;
pub mod stores;
pub mod fen;
pub mod api;

pub use bitboard::{BitBoard, BitBoardExt};
pub use color::Color;
pub use game_state::GameState;
pub use make_unmake::MakeUnmaker;
pub use move_generator::MoveGenerator;
pub use move_list::{AddMove, MoveList};
pub use moves::{Move, MoveExt};
pub use search::SearchContext;
pub use square::Square;
