//! Chain-reaction bomb simulation on a square grid of string-encoded cells.
//!
//! The board holds tokens such as `_` (empty), `W` (wall), `R` (rock),
//! `B3` / `S3` (normal / pass-through bomb of range 3), `F2` (enemy with two
//! health) and `DU` (deflector that turns a blast upward). Detonating a bomb
//! casts four directional blasts; bombs caught in a blast are queued and
//! detonated in turn until none remain. The module `modelo` states the whole
//! game as specification functions, and the executable code in `bomberman` is
//! proved to follow it.

pub mod bomberman;
pub mod celda;
pub mod entrada;
pub mod leyes;
pub mod modelo;
pub mod punto;
