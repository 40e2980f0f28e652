//! Conway's game of life on a fixed board of 825 columns by 420 rows,
//! with the bookkeeping that a window needs to draw it.
pub mod grid;
pub mod life;
pub mod random;
pub mod window;
