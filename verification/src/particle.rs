//! One cell's state: its charge, the colour it is drawn in, and its place.

use crate::random::next_u32;
use crate::random::thread_rng;
use vstd::prelude::*;

verus! {

/// The brightest colour. Colours run from 0 (dark) to this value.
pub const MAX_COLOR_INDEX: usize = 4;

/// A particle discharges once its energy is strictly above this value, which
/// equals `MAX_COLOR_INDEX`.
pub const DIFFUSION_ENERGY: u8 = 4;

/// The least energy a particle is created with.
pub const MIN_INITIAL_ENERGY: u8 = 2;

/// The state of one cell of the grid.
#[derive(Clone, Copy, Debug, PartialEq, Eq, Structural)]
pub struct Particle {
    /// The charge held by the cell.
    pub energy: u8,
    /// The colour the cell is drawn in, from 0 to `MAX_COLOR_INDEX`.
    pub color: usize,
    /// The cell's flat position in its grid.
    pub index: usize,
}

/// The energy that a particle created from the random number `draw` starts
/// with: `draw` reduced modulo `MAX_COLOR_INDEX`, but no less than
/// `MIN_INITIAL_ENERGY`.
pub open spec fn initial_energy(draw: u32) -> int {
    let reduced = draw as int % MAX_COLOR_INDEX as int;
    if reduced < MIN_INITIAL_ENERGY {
        MIN_INITIAL_ENERGY as int
    } else {
        reduced
    }
}

/// The particle with this energy is over the discharge threshold.
pub open spec fn over_limit(p: Particle) -> bool {
    p.energy > DIFFUSION_ENERGY
}

impl Particle {
    /// A dark particle at position 0 whose energy is fixed by `draw`.
    pub fn from_draw(draw: u32) -> (p: Particle)
        ensures
            p.energy == initial_energy(draw),
            p.color == 0,
            p.index == 0,
    {
        let reduced: u32 = draw % (MAX_COLOR_INDEX as u32);
        let energy: u8 = if reduced < MIN_INITIAL_ENERGY as u32 {
            MIN_INITIAL_ENERGY
        } else {
            reduced as u8
        };
        Particle { energy, color: 0, index: 0 }
    }

    /// A dark particle at position 0 with a random energy between
    /// `MIN_INITIAL_ENERGY` and `MAX_COLOR_INDEX - 1`.
    pub fn new() -> (p: Particle)
        ensures
            MIN_INITIAL_ENERGY <= p.energy <= MAX_COLOR_INDEX - 1,
            p.color == 0,
            p.index == 0,
    {
        let mut rng = thread_rng();
        let draw: u32 = next_u32(&mut rng);
        Particle::from_draw(draw)
    }
}

} // verus!
