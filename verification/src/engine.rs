//! The simulation: a grid, the random source that feeds it, and the passes
//! that move it forward.

use crate::grid::lemma_well_formed_not_empty;
use crate::grid::lists_over_limit;
use crate::grid::quiescent;
use crate::grid::well_formed;
use crate::grid::GridState;
use crate::particle::over_limit;
use crate::particle::Particle;
use crate::particle::DIFFUSION_ENERGY;
use crate::particle::MAX_COLOR_INDEX;
use crate::particle::MIN_INITIAL_ENERGY;
use crate::random::next_u32;
use crate::random::thread_rng;
use crate::reaction::advanced;
use crate::reaction::bumped;
use crate::reaction::decayed;
use crate::reaction::discharge_fits;
use crate::reaction::discharged;
use crate::reaction::discharged_through;
use crate::reaction::energy_added;
use crate::reaction::faded;
use crate::reaction::fire_fits;
use crate::reaction::fired;
use crate::reaction::fires_safely;
use crate::reaction::injected;
use crate::reaction::injection_fits;
use crate::reaction::injection_index;
use crate::reaction::is_neighbor;
use crate::reaction::lemma_discharged_energy_is_small;
use crate::reaction::lemma_discharged_particle_is_reset;
use crate::reaction::lemma_fire_next;
use crate::reaction::lemma_lone_discharge;
use crate::reaction::lemma_nothing_fired;
use crate::reaction::lemma_skip_idle;
use crate::reaction::lone_over_limit;
use crate::reaction::received;
use crate::reaction::shade;
use crate::reaction::update_fits;
use crate::reaction::DECAY_PERIOD;
use crate::reaction::DISCHARGE_PERIOD;
use rand::rngs::ThreadRng;
use vstd::arithmetic::div_mod::lemma_mod_decreases;
use vstd::arithmetic::div_mod::lemma_mod_pos_bound;
use vstd::arithmetic::div_mod::lemma_small_mod;
use vstd::prelude::*;

verus! {

/// The number of columns of the grid that `MainState::new` builds.
pub const WIDTH: usize = 132;

/// The number of rows of the grid that `MainState::new` builds.
pub const HEIGHT: usize = 99;

/// The simulation engine. It owns the grid and is the only one to change it.
pub struct MainState {
    /// The particles and their neighbourhood.
    pub grid: GridState,
    /// The source of the random numbers that place new energy.
    pub rnd: ThreadRng,
}

/// The index at which the pass stands when the first `k` entries of `list`
/// have fired: the next entry, or the end of the grid.
spec fn bound_at(list: Seq<usize>, k: int, count: int) -> int {
    if k < list.len() {
        list[k] as int
    } else {
        count
    }
}

impl MainState {
    /// Sends one unit of energy to the particle in cell `q`.
    fn bump(&mut self, q: usize)
        requires
            old(self).grid.wf(),
            q < old(self).grid@.len(),
            old(self).grid@[q as int].energy < u8::MAX,
        ensures
            final(self).grid.wf(),
            final(self).grid.same_shape(&old(self).grid),
            final(self).grid@ == bumped(old(self).grid@, q as int),
            final(self).rnd == old(self).rnd,
    {
        let energy: u8 = self.grid.particle(q).energy + 1;
        let color: usize = if (energy as usize) < MAX_COLOR_INDEX {
            energy as usize
        } else {
            MAX_COLOR_INDEX
        };
        self.grid.set_particle(q, energy, color);
    }

    /// Fires the particle in cell `i`: empties it, lights it up, and sends
    /// one unit of energy to each of its four neighbours.
    fn fire(&mut self, i: usize)
        requires
            old(self).grid.wf(),
            i < old(self).grid@.len(),
            fire_fits(
                old(self).grid@,
                old(self).grid.spec_width(),
                old(self).grid.spec_height(),
                i as int,
            ),
        ensures
            final(self).grid.wf(),
            final(self).grid.same_shape(&old(self).grid),
            final(self).grid@ == fired(
                old(self).grid@,
                old(self).grid.spec_width(),
                old(self).grid.spec_height(),
                i as int,
            ),
            final(self).rnd == old(self).rnd,
    {
        self.grid.set_particle(i, 0, MAX_COLOR_INDEX);
        let left: usize = self.grid.left_particle(i);
        let right: usize = self.grid.right_particle(i);
        let up: usize = self.grid.up_particle(i);
        let down: usize = self.grid.down_particle(i);
        self.bump(left);
        self.bump(right);
        self.bump(up);
        self.bump(down);
    }

    /// A simulation of the grid `grid`, fed by the calling thread's random
    /// number generator.
    pub fn with_grid(grid: GridState) -> (state: MainState)
        ensures
            state.grid == grid,
    {
        MainState { grid, rnd: thread_rng() }
    }

    /// A simulation of a fresh grid of `WIDTH` by `HEIGHT` particles.
    pub fn new() -> (state: MainState)
        ensures
            state.grid.wf(),
            state.grid.spec_width() == WIDTH,
            state.grid.spec_height() == HEIGHT,
            forall|i: int|
                0 <= i < state.grid@.len() ==> MIN_INITIAL_ENERGY <= (
                #[trigger] state.grid@[i]).energy <= MAX_COLOR_INDEX - 1 && state.grid@[i].color
                    == 0,
    {
        MainState::with_grid(GridState::new(WIDTH, HEIGHT))
    }

    /// One discharge pass: every particle that is over the threshold when the
    /// pass begins fires once, in ascending order of the indices. A particle
    /// that goes over the threshold during the pass waits for the next one.
    ///
    /// The first clause on the particles says what the pass makes of every
    /// cell. The others spell out two consequences: a particle that fires
    /// ends empty and at its brightest, unless a neighbour fires with it or
    /// after it; and around a lone firing particle, in a grid of at least
    /// three columns and rows, each neighbour gains exactly one unit.
    pub fn update_particles(&mut self)
        requires
            old(self).grid.wf(),
            discharge_fits(
                old(self).grid@,
                old(self).grid.spec_width(),
                old(self).grid.spec_height(),
            ),
        ensures
            final(self).grid.wf(),
            final(self).grid.same_shape(&old(self).grid),
            final(self).rnd == old(self).rnd,
            final(self).grid@ == discharged(
                old(self).grid@,
                old(self).grid.spec_width(),
                old(self).grid.spec_height(),
            ),
            forall|j: int|
                0 <= j < old(self).grid@.len() && over_limit(#[trigger] old(self).grid@[j])
                    && received(
                    old(self).grid@,
                    old(self).grid.spec_width(),
                    old(self).grid.spec_height(),
                    j,
                    j,
                    old(self).grid@.len() as int,
                ) == 0 ==> final(self).grid@[j].energy == 0 && final(self).grid@[j].color
                    == MAX_COLOR_INDEX,
            forall|lone: int, q: int|
                old(self).grid.spec_width() >= 3 && old(self).grid.spec_height() >= 3
                    && lone_over_limit(old(self).grid@, lone) && #[trigger] is_neighbor(
                    old(self).grid.spec_width(),
                    old(self).grid.spec_height(),
                    lone,
                    q,
                ) ==> final(self).grid@[q].energy == old(self).grid@[q].energy + 1
                    && final(self).grid@[q].color == shade(old(self).grid@[q].energy + 1),
    {
        let over_energy_limit_indexes: Vec<usize> = self.grid.over_energy_limit_indexes();
        let ghost start = self.grid@;
        let ghost width = self.grid.spec_width();
        let ghost height = self.grid.spec_height();
        let ghost count = start.len() as int;
        proof {
            lemma_nothing_fired(start, width, height);
            lemma_idle_between(over_energy_limit_indexes@, start, 0);
            lemma_skip_idle(
                start,
                width,
                height,
                0,
                bound_at(over_energy_limit_indexes@, 0, count),
            );
        }
        let mut k: usize = 0;
        while k < over_energy_limit_indexes.len()
            invariant
                k <= over_energy_limit_indexes@.len(),
                lists_over_limit(over_energy_limit_indexes@, start),
                well_formed(start, width, height),
                discharge_fits(start, width, height),
                count == start.len(),
                self.grid.wf(),
                self.grid.spec_width() == width,
                self.grid.spec_height() == height,
                self.rnd == old(self).rnd,
                self.grid@ == discharged_through(
                    start,
                    width,
                    height,
                    bound_at(over_energy_limit_indexes@, k as int, count),
                ),
            decreases over_energy_limit_indexes@.len() - k,
        {
            let i: usize = over_energy_limit_indexes[k];
            proof {
                lemma_fire_next(start, width, height, i as int);
                lemma_idle_between(over_energy_limit_indexes@, start, k + 1);
                lemma_skip_idle(
                    start,
                    width,
                    height,
                    i + 1,
                    bound_at(over_energy_limit_indexes@, k + 1, count),
                );
            }
            self.fire(i);
            k += 1;
        }
        proof {
            assert forall|j: int|
                0 <= j < start.len() && over_limit(#[trigger] start[j]) && received(
                    start,
                    width,
                    height,
                    j,
                    j,
                    count,
                ) == 0 implies self.grid@[j].energy == 0 && self.grid@[j].color
                == MAX_COLOR_INDEX by {
                lemma_discharged_particle_is_reset(start, width, height, j);
            }
            assert forall|lone: int, q: int|
                width >= 3 && height >= 3 && lone_over_limit(start, lone) && #[trigger] is_neighbor(
                    width,
                    height,
                    lone,
                    q,
                ) implies self.grid@[q].energy == start[q].energy + 1 && self.grid@[q].color
                == shade(start[q].energy + 1) by {
                lemma_lone_discharge(start, width, height, lone);
            }
        }
    }

    /// One decay pass: every particle that glows turns one step darker.
    /// No energy changes.
    pub fn decay(&mut self)
        requires
            old(self).grid.wf(),
        ensures
            final(self).grid.wf(),
            final(self).grid.same_shape(&old(self).grid),
            final(self).rnd == old(self).rnd,
            final(self).grid@ == decayed(old(self).grid@),
            forall|i: int|
                0 <= i < old(self).grid@.len() ==> (#[trigger] final(self).grid@[i]).energy == old(
                    self,
                ).grid@[i].energy && final(self).grid@[i].color == if old(self).grid@[i].color
                    > 0 {
                    old(self).grid@[i].color - 1
                } else {
                    0
                },
    {
        let ghost start = self.grid@;
        let count: usize = self.grid.len();
        let mut i: usize = 0;
        while i < count
            invariant
                i <= count,
                count == start.len(),
                self.grid.wf(),
                self.grid.same_shape(&old(self).grid),
                self.rnd == old(self).rnd,
                self.grid@.len() == count,
                forall|k: int| 0 <= k < i ==> self.grid@[k] == faded(#[trigger] start[k]),
                forall|k: int| i <= k < count ==> self.grid@[k] == #[trigger] start[k],
            decreases count - i,
        {
            let p: Particle = self.grid.particle(i);
            if p.color > 0 {
                self.grid.set_particle(i, p.energy, p.color - 1);
            }
            i += 1;
        }
        assert(self.grid@ =~= decayed(start));
    }

    /// Adds one unit of energy to the particle that `draw` picks.
    pub fn inject(&mut self, draw: u32)
        requires
            old(self).grid.wf(),
            old(self).grid@[injection_index(draw, old(self).grid@.len() as int)].energy < u8::MAX,
        ensures
            final(self).grid.wf(),
            final(self).grid.same_shape(&old(self).grid),
            final(self).grid@ == injected(old(self).grid@, draw),
            final(self).rnd == old(self).rnd,
    {
        proof {
            lemma_well_formed_not_empty(
                self.grid@,
                self.grid.spec_width(),
                self.grid.spec_height(),
            );
        }
        let index: usize = injection_target(draw, self.grid.len());
        let p: Particle = self.grid.particle(index);
        self.grid.set_particle(index, p.energy + 1, p.color);
    }

    /// The injection step: if the grid is quiescent, one particle, picked at
    /// random, gains one unit of energy; if any particle still glows, nothing
    /// changes.
    pub fn add_energy(&mut self)
        requires
            old(self).grid.wf(),
            injection_fits(old(self).grid@),
        ensures
            final(self).grid.wf(),
            final(self).grid.same_shape(&old(self).grid),
            !quiescent(old(self).grid@) ==> final(self).grid@ == old(self).grid@,
            quiescent(old(self).grid@) ==> exists|draw: u32|
                final(self).grid@ == #[trigger] injected(old(self).grid@, draw),
            quiescent(old(self).grid@) ==> exists|i: int|
                0 <= i < old(self).grid@.len() && final(self).grid@ == #[trigger] energy_added(
                    old(self).grid@,
                    i,
                ),
    {
        // Energy is only added while no reaction is going on, so that each
        // reaction can be watched to its end.
        if self.grid.is_quiescent() {
            let draw: u32 = next_u32(&mut self.rnd);
            proof {
                lemma_well_formed_not_empty(
                    self.grid@,
                    self.grid.spec_width(),
                    self.grid.spec_height(),
                );
                lemma_injection_index_in_range(draw, self.grid@.len() as int);
            }
            self.inject(draw);
        }
    }

    /// The passes that are due at tick `ticks`, without the injection: a
    /// discharge pass if `DISCHARGE_PERIOD` divides `ticks`, then a decay
    /// pass if `DECAY_PERIOD` divides `ticks`.
    pub fn advance(&mut self, ticks: usize)
        requires
            old(self).grid.wf(),
            ticks % DISCHARGE_PERIOD == 0 ==> discharge_fits(
                old(self).grid@,
                old(self).grid.spec_width(),
                old(self).grid.spec_height(),
            ),
        ensures
            final(self).grid.wf(),
            final(self).grid.same_shape(&old(self).grid),
            final(self).grid@ == advanced(
                old(self).grid@,
                old(self).grid.spec_width(),
                old(self).grid.spec_height(),
                ticks as int,
            ),
            final(self).rnd == old(self).rnd,
    {
        if ticks % DISCHARGE_PERIOD == 0 {
            self.update_particles();
        }
        if ticks % DECAY_PERIOD == 0 {
            self.decay();
        }
    }

    /// One step of the simulation at tick `ticks`: the passes that are due,
    /// then the injection step.
    pub fn update(&mut self, ticks: usize)
        requires
            old(self).grid.wf(),
            update_fits(
                old(self).grid@,
                old(self).grid.spec_width(),
                old(self).grid.spec_height(),
                ticks as int,
            ),
        ensures
            final(self).grid.wf(),
            final(self).grid.same_shape(&old(self).grid),
            ({
                let settled = advanced(
                    old(self).grid@,
                    old(self).grid.spec_width(),
                    old(self).grid.spec_height(),
                    ticks as int,
                );
                &&& !quiescent(settled) ==> final(self).grid@ == settled
                &&& quiescent(settled) ==> exists|draw: u32|
                    final(self).grid@ == #[trigger] injected(settled, draw)
            }),
    {
        self.advance(ticks);
        self.add_energy();
    }

    /// The units that cell `j` is sent, in a discharge pass, by neighbours
    /// that fire before it.
    fn sent_from_below(&self, j: usize) -> (units: u8)
        requires
            self.grid.wf(),
            j < self.grid@.len(),
        ensures
            units == received(
                self.grid@,
                self.grid.spec_width(),
                self.grid.spec_height(),
                j as int,
                0,
                j as int,
            ),
    {
        let mut units: u8 = 0;
        let left: usize = self.grid.left_particle(j);
        if left < j && self.grid.particle(left).energy > DIFFUSION_ENERGY {
            units += 1;
        }
        let right: usize = self.grid.right_particle(j);
        if right < j && self.grid.particle(right).energy > DIFFUSION_ENERGY {
            units += 1;
        }
        let up: usize = self.grid.up_particle(j);
        if up < j && self.grid.particle(up).energy > DIFFUSION_ENERGY {
            units += 1;
        }
        let down: usize = self.grid.down_particle(j);
        if down < j && self.grid.particle(down).energy > DIFFUSION_ENERGY {
            units += 1;
        }
        units
    }

    /// Whether a discharge pass can run now without an energy leaving the
    /// range of a `u8`.
    pub fn can_discharge(&self) -> (ok: bool)
        requires
            self.grid.wf(),
        ensures
            ok == discharge_fits(self.grid@, self.grid.spec_width(), self.grid.spec_height()),
    {
        let count: usize = self.grid.len();
        let mut j: usize = 0;
        while j < count
            invariant
                j <= count,
                count == self.grid@.len(),
                self.grid.wf(),
                forall|k: int|
                    0 <= k < j ==> #[trigger] fires_safely(
                        self.grid@,
                        self.grid.spec_width(),
                        self.grid.spec_height(),
                        k,
                    ),
            decreases count - j,
        {
            let p: Particle = self.grid.particle(j);
            if p.energy > DIFFUSION_ENERGY {
                let units: u8 = self.sent_from_below(j);
                if p.energy > u8::MAX - units {
                    assert(!fires_safely(
                        self.grid@,
                        self.grid.spec_width(),
                        self.grid.spec_height(),
                        j as int,
                    ));
                    return false;
                }
            }
            assert(fires_safely(
                self.grid@,
                self.grid.spec_width(),
                self.grid.spec_height(),
                j as int,
            ));
            j += 1;
        }
        true
    }

    /// Whether an injection would fit if the particles were `fade` steps
    /// darker than they are, for `fade` 0 or 1.
    fn can_add_energy_after(&self, fade: usize) -> (ok: bool)
        requires
            self.grid.wf(),
            fade <= 1,
        ensures
            fade == 0 ==> ok == injection_fits(self.grid@),
            fade == 1 ==> ok == injection_fits(decayed(self.grid@)),
    {
        let count: usize = self.grid.len();
        let ghost cells = self.grid@;
        let ghost later = if fade == 0 {
            cells
        } else {
            decayed(cells)
        };
        proof {
            lemma_well_formed_not_empty(cells, self.grid.spec_width(), self.grid.spec_height());
        }
        let mut i: usize = 0;
        while i < count
            invariant
                i <= count,
                count == cells.len(),
                cells == self.grid@,
                fade <= 1,
                later == if fade == 0 {
                    cells
                } else {
                    decayed(cells)
                },
                forall|k: int| 0 <= k < i ==> (#[trigger] later[k]).color == 0,
            decreases count - i,
        {
            if self.grid.particle(i).color > fade {
                assert(later[i as int].color != 0);
                return true;
            }
            i += 1;
        }
        assert(quiescent(later));
        let reach: usize = if count > u32::MAX as usize {
            u32::MAX as usize + 1
        } else {
            count
        };
        let mut i: usize = 0;
        while i < reach
            invariant
                i <= reach <= count,
                count == cells.len(),
                count > 0,
                cells == self.grid@,
                reach == if count > u32::MAX { u32::MAX + 1 } else { count as int },
                later.len() == count,
                quiescent(later),
                fade <= 1,
                later == if fade == 0 {
                    cells
                } else {
                    decayed(cells)
                },
                forall|k: int| 0 <= k < count ==> (#[trigger] later[k]).energy == cells[k].energy,
                forall|k: int| 0 <= k < i ==> (#[trigger] cells[k]).energy < u8::MAX,
            decreases reach - i,
        {
            if self.grid.particle(i).energy == u8::MAX {
                proof {
                    lemma_injection_index_in_range(i as u32, count as int);
                    assert(later[injection_index(i as u32, later.len() as int)].energy == u8::MAX);
                }
                return false;
            }
            i += 1;
        }
        assert forall|draw: u32|
            later[#[trigger] injection_index(draw, later.len() as int)].energy < u8::MAX by {
            let k = injection_index(draw, count as int);
            lemma_injection_index_in_range(draw, count as int);
            assert(cells[k].energy < u8::MAX);
        }
        true
    }

    /// Whether the injection step can run now without an energy leaving the
    /// range of a `u8`.
    pub fn can_add_energy(&self) -> (ok: bool)
        requires
            self.grid.wf(),
        ensures
            ok == injection_fits(self.grid@),
    {
        self.can_add_energy_after(0)
    }

    /// Whether the step at tick `ticks` can run now without an energy
    /// leaving the range of a `u8`.
    pub fn can_update(&self, ticks: usize) -> (ok: bool)
        requires
            self.grid.wf(),
        ensures
            ok == update_fits(
                self.grid@,
                self.grid.spec_width(),
                self.grid.spec_height(),
                ticks as int,
            ),
    {
        if ticks % DISCHARGE_PERIOD == 0 {
            if !self.can_discharge() {
                return false;
            }
            proof {
                let sparked = discharged(
                    self.grid@,
                    self.grid.spec_width(),
                    self.grid.spec_height(),
                );
                lemma_discharged_energy_is_small(
                    self.grid@,
                    self.grid.spec_width(),
                    self.grid.spec_height(),
                );
                lemma_well_formed_not_empty(
                    self.grid@,
                    self.grid.spec_width(),
                    self.grid.spec_height(),
                );
                let settled = advanced(
                    self.grid@,
                    self.grid.spec_width(),
                    self.grid.spec_height(),
                    ticks as int,
                );
                assert forall|draw: u32|
                    settled[#[trigger] injection_index(draw, settled.len() as int)].energy
                        < u8::MAX by {
                    let k = injection_index(draw, settled.len() as int);
                    assert(sparked[k].energy <= DIFFUSION_ENERGY + 4);
                }
            }
            true
        } else if ticks % DECAY_PERIOD == 0 {
            self.can_add_energy_after(1)
        } else {
            self.can_add_energy_after(0)
        }
    }
}

/// The cell that the random number `draw` picks among `count` cells: `draw`
/// reduced modulo `count`.
pub fn injection_target(draw: u32, count: usize) -> (index: usize)
    requires
        count > 0,
    ensures
        index == injection_index(draw, count as int),
        index < count,
{
    (draw as usize) % count
}

/// A drawn cell is a cell of the grid, and no cell beyond the number drawn;
/// a number below the count of cells picks the cell of that index.
pub proof fn lemma_injection_index_in_range(draw: u32, count: int)
    requires
        count > 0,
    ensures
        0 <= injection_index(draw, count) < count,
        injection_index(draw, count) <= draw,
        draw < count ==> injection_index(draw, count) == draw,
{
    lemma_mod_pos_bound(draw as int, count);
    lemma_mod_decreases(draw as nat, count as nat);
    if draw < count {
        lemma_small_mod(draw as nat, count as nat);
    }
}

/// Between the entry of `list` at `k - 1` and the one at `k` (or from the
/// start of the grid, or to its end) no cell is over the threshold.
proof fn lemma_idle_between(list: Seq<usize>, cells: Seq<Particle>, k: int)
    requires
        lists_over_limit(list, cells),
        0 <= k <= list.len(),
    ensures
        k == 0 ==> 0 <= bound_at(list, k, cells.len() as int),
        k > 0 ==> list[k - 1] + 1 <= bound_at(list, k, cells.len() as int),
        bound_at(list, k, cells.len() as int) <= cells.len(),
        forall|j: int|
            (if k == 0 {
                0
            } else {
                list[k - 1] + 1
            }) <= j < bound_at(list, k, cells.len() as int) ==> !over_limit(#[trigger] cells[j]),
{
    let from: int = if k == 0 {
        0
    } else {
        list[k - 1] + 1
    };
    if k > 0 {
        assert(list[k - 1] < cells.len());
    }
    if k < list.len() {
        assert(list[k] < cells.len());
    }
    assert forall|j: int| from <= j < bound_at(list, k, cells.len() as int) implies !over_limit(
        #[trigger] cells[j],
    ) by {
        if over_limit(cells[j]) {
            let a = choose|a: int| 0 <= a < list.len() && #[trigger] list[a] == j;
            if a < k {
                if a < k - 1 {
                    assert(list[a] < list[k - 1]);
                }
            } else if a > k {
                assert(list[k] < list[a]);
            }
        }
    }
}

} // verus!
