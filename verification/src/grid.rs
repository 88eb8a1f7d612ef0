//! The grid: its shape, the wrap-around neighbourhood, and the particles it
//! holds, one for each cell, stored row by row.

use crate::particle::over_limit;
use crate::particle::Particle;
use crate::particle::DIFFUSION_ENERGY;
use crate::particle::MAX_COLOR_INDEX;
use crate::particle::MIN_INITIAL_ENERGY;
use crate::topology::cell_at;
use crate::topology::down_of;
use crate::topology::left_of;
use crate::topology::lemma_cell_at;
use crate::topology::lemma_neighbor_offsets;
use crate::topology::lemma_neighbors_apart;
use crate::topology::lemma_neighbors_in_grid;
use crate::topology::right_of;
use crate::topology::up_of;
use vstd::prelude::*;

verus! {

/// A rectangle of cells whose edges wrap around, with one particle in each
/// cell. The shape is fixed when the grid is made, and so is the number of
/// particles: cell `i` holds the particle whose `index` is `i`.
pub struct GridState {
    width: usize,
    height: usize,
    particles: Vec<Particle>,
}

/// `cells` is a valid content for a `width` by `height` grid: one particle
/// for each cell, each knowing its own position and drawn in a colour of
/// the palette.
pub open spec fn well_formed(cells: Seq<Particle>, width: int, height: int) -> bool {
    &&& width > 0
    &&& height > 0
    &&& cells.len() == width * height
    &&& forall|i: int|
        0 <= i < cells.len() ==> (#[trigger] cells[i]).index == i && cells[i].color
            <= MAX_COLOR_INDEX
}

/// `list` names, in ascending order and each once, exactly the cells of
/// `cells` that are over the discharge threshold.
pub open spec fn lists_over_limit(list: Seq<usize>, cells: Seq<Particle>) -> bool {
    &&& forall|a: int, b: int| 0 <= a < b < list.len() ==> list[a] < list[b]
    &&& forall|a: int|
        0 <= a < list.len() ==> (#[trigger] list[a]) < cells.len() && over_limit(
            cells[list[a] as int],
        )
    &&& forall|j: int|
        0 <= j < cells.len() && over_limit(#[trigger] cells[j]) ==> exists|a: int|
            0 <= a < list.len() && #[trigger] list[a] == j
}

/// No particle of `cells` glows: every colour is 0.
pub open spec fn quiescent(cells: Seq<Particle>) -> bool {
    forall|i: int| 0 <= i < cells.len() ==> (#[trigger] cells[i]).color == 0
}

/// A well-formed grid has at least one cell.
pub proof fn lemma_well_formed_not_empty(cells: Seq<Particle>, width: int, height: int)
    requires
        well_formed(cells, width, height),
    ensures
        cells.len() > 0,
{
    assert(width * height > 0) by (nonlinear_arith)
        requires
            width > 0,
            height > 0,
    ;
}

impl View for GridState {
    type V = Seq<Particle>;

    /// The particles, row by row.
    closed spec fn view(&self) -> Seq<Particle> {
        self.particles@
    }
}

impl GridState {
    /// The number of columns.
    pub closed spec fn spec_width(&self) -> int {
        self.width as int
    }

    /// The number of rows.
    pub closed spec fn spec_height(&self) -> int {
        self.height as int
    }

    /// The invariant of every grid that this module hands out.
    pub open spec fn wf(&self) -> bool {
        well_formed(self@, self.spec_width(), self.spec_height())
    }

    /// `other` has the shape of `self`.
    pub open spec fn same_shape(&self, other: &GridState) -> bool {
        self.spec_width() == other.spec_width() && self.spec_height() == other.spec_height()
    }

    /// The particles of a grid can be counted in a `usize`.
    pub proof fn lemma_len_fits(&self)
        ensures
            self@.len() <= usize::MAX,
    {
        assert(self.particles.len() == self.particles@.len());
    }

    /// A grid of `width` by `height` dark particles, each with a random
    /// energy of its own between `MIN_INITIAL_ENERGY` and
    /// `MAX_COLOR_INDEX - 1`.
    pub fn new(width: usize, height: usize) -> (grid: GridState)
        requires
            width > 0,
            height > 0,
            width * height <= usize::MAX,
        ensures
            grid.wf(),
            grid.spec_width() == width,
            grid.spec_height() == height,
            forall|i: int|
                0 <= i < grid@.len() ==> MIN_INITIAL_ENERGY <= (#[trigger] grid@[i]).energy
                    <= MAX_COLOR_INDEX - 1 && grid@[i].color == 0,
    {
        let count: usize = width * height;
        let mut particles: Vec<Particle> = Vec::new();
        let mut i: usize = 0;
        while i < count
            invariant
                i <= count,
                particles@.len() == i,
                forall|k: int|
                    0 <= k < i ==> (#[trigger] particles@[k]).index == k && particles@[k].color == 0
                        && MIN_INITIAL_ENERGY <= particles@[k].energy <= MAX_COLOR_INDEX - 1,
            decreases count - i,
        {
            let mut p = Particle::new();
            p.index = i;
            particles.push(p);
            i += 1;
        }
        GridState { width, height, particles }
    }

    /// The number of columns.
    pub fn width(&self) -> (width: usize)
        ensures
            width == self.spec_width(),
    {
        self.width
    }

    /// The number of rows.
    pub fn height(&self) -> (height: usize)
        ensures
            height == self.spec_height(),
    {
        self.height
    }

    /// The number of particles.
    pub fn len(&self) -> (count: usize)
        ensures
            count == self@.len(),
    {
        self.particles.len()
    }

    /// The particle in cell `index`.
    pub fn particle(&self, index: usize) -> (p: Particle)
        requires
            index < self@.len(),
        ensures
            p == self@[index as int],
    {
        self.particles[index]
    }

    /// Gives the particle in cell `index` a new energy and a new colour,
    /// and leaves every other particle as it is.
    pub fn set_particle(&mut self, index: usize, energy: u8, color: usize)
        requires
            old(self).wf(),
            index < old(self)@.len(),
            color <= MAX_COLOR_INDEX,
        ensures
            final(self).wf(),
            final(self).same_shape(old(self)),
            final(self)@ == old(self)@.update(index as int, Particle { energy, color, index }),
    {
        self.particles[index] = Particle { energy, color, index };
    }

    /// The colour of the cell in column `x` of row `y`.
    pub fn color_at(&self, x: usize, y: usize) -> (color: usize)
        requires
            self.wf(),
            x < self.spec_width(),
            y < self.spec_height(),
        ensures
            color == self@[cell_at(self.spec_width(), y as int, x as int)].color,
            color <= MAX_COLOR_INDEX,
    {
        proof {
            self.lemma_len_fits();
            lemma_cell_at(self.width as int, self.height as int, y as int, x as int);
            assert(0 <= y * self.width <= y * self.width + x) by (nonlinear_arith);
        }
        self.particles[y * self.width + x].color
    }

    /// The indices of the particles that are over the discharge threshold,
    /// in ascending order.
    pub fn over_energy_limit_indexes(&self) -> (list: Vec<usize>)
        ensures
            lists_over_limit(list@, self@),
    {
        let mut list: Vec<usize> = Vec::new();
        let mut i: usize = 0;
        while i < self.particles.len()
            invariant
                i <= self.particles@.len(),
                forall|a: int, b: int| 0 <= a < b < list@.len() ==> list@[a] < list@[b],
                forall|a: int|
                    0 <= a < list@.len() ==> (#[trigger] list@[a]) < i && over_limit(
                        self.particles@[list@[a] as int],
                    ),
                forall|j: int|
                    0 <= j < i && over_limit(#[trigger] self.particles@[j]) ==> exists|a: int|
                        0 <= a < list@.len() && #[trigger] list@[a] == j,
            decreases self.particles@.len() - i,
        {
            if self.particles[i].energy > DIFFUSION_ENERGY {
                let ghost before = list@;
                list.push(i);
                assert forall|j: int| 0 <= j < i + 1 && over_limit(#[trigger] self.particles@[j])
                    implies exists|a: int| 0 <= a < list@.len() && #[trigger] list@[a] == j by {
                    if j < i {
                        let a = choose|a: int| 0 <= a < before.len() && #[trigger] before[a] == j;
                        assert(list@[a] == j);
                    } else {
                        assert(list@[before.len() as int] == j);
                    }
                }
            }
            i += 1;
        }
        list
    }

    /// Whether no particle glows.
    pub fn is_quiescent(&self) -> (dark: bool)
        ensures
            dark == quiescent(self@),
    {
        let mut i: usize = 0;
        while i < self.particles.len()
            invariant
                i <= self.particles@.len(),
                forall|k: int| 0 <= k < i ==> (#[trigger] self.particles@[k]).color == 0,
            decreases self.particles@.len() - i,
        {
            if self.particles[i].color != 0 {
                return false;
            }
            i += 1;
        }
        true
    }

    /// The index of the cell to the left of `origin`, wrapping from the first
    /// column to the last.
    pub fn left_particle(&self, origin: usize) -> (left: usize)
        requires
            self.wf(),
            origin < self@.len(),
        ensures
            left == left_of(self.spec_width(), origin as int),
            left < self@.len(),
            left == if origin as int % self.spec_width() == 0 {
                origin + self.spec_width() - 1
            } else {
                origin - 1
            },
            self.spec_width() > 1 ==> left != origin,
    {
        proof {
            self.lemma_len_fits();
            lemma_neighbor_offsets(self.width as int, self.height as int, origin as int);
            lemma_neighbors_in_grid(self.width as int, self.height as int, origin as int);
            lemma_neighbors_apart(self.width as int, self.height as int, origin as int);
        }
        if origin == 0 {
            assert(0int % (self.width as int) == 0);
            return self.width - 1;
        }
        proof {
            lemma_mod_of_predecessor(origin as int, self.width as int);
        }
        let mut left_index: usize = origin - 1;
        if left_index % self.width == self.width - 1 {
            left_index += self.width;
        }
        left_index
    }

    /// The index of the cell to the right of `origin`, wrapping from the last
    /// column to the first.
    pub fn right_particle(&self, origin: usize) -> (right: usize)
        requires
            self.wf(),
            origin < self@.len(),
        ensures
            right == right_of(self.spec_width(), origin as int),
            right < self@.len(),
            right == if origin as int % self.spec_width() == self.spec_width() - 1 {
                origin + 1 - self.spec_width()
            } else {
                origin + 1
            },
            self.spec_width() > 1 ==> right != origin,
    {
        proof {
            self.lemma_len_fits();
            lemma_neighbor_offsets(self.width as int, self.height as int, origin as int);
            lemma_neighbors_in_grid(self.width as int, self.height as int, origin as int);
            lemma_neighbors_apart(self.width as int, self.height as int, origin as int);
            lemma_mod_of_predecessor(origin + 1, self.width as int);
            lemma_last_row_start(self.width as int, self.height as int);
        }
        if origin == self.particles.len() - 1 {
            assert((self.width as int * self.height as int) % (self.width as int) == 0) by {
                vstd::arithmetic::div_mod::lemma_fundamental_div_mod_converse(
                    self.width as int * self.height as int,
                    self.width as int,
                    self.height as int,
                    0,
                );
                assert(self.width as int * self.height as int == self.height as int
                    * self.width as int) by (nonlinear_arith);
            }
            return self.particles.len() - self.width;
        }
        let mut right_index: usize = origin + 1;
        if right_index % self.width == 0 {
            right_index -= self.width;
        }
        right_index
    }

    /// The index of the cell above `origin`, wrapping from the first row to
    /// the last.
    pub fn up_particle(&self, origin: usize) -> (up: usize)
        requires
            self.wf(),
            origin < self@.len(),
        ensures
            up == up_of(self.spec_width(), self.spec_height(), origin as int),
            up < self@.len(),
            up == if origin < self.spec_width() {
                origin + self.spec_width() * (self.spec_height() - 1)
            } else {
                origin - self.spec_width()
            },
            self.spec_height() > 1 ==> up != origin,
    {
        proof {
            self.lemma_len_fits();
            lemma_neighbor_offsets(self.width as int, self.height as int, origin as int);
            lemma_neighbors_in_grid(self.width as int, self.height as int, origin as int);
            lemma_neighbors_apart(self.width as int, self.height as int, origin as int);
            lemma_last_row_start(self.width as int, self.height as int);
        }
        if origin < self.width {
            return self.width * (self.height - 1) + origin;
        }
        origin - self.width
    }

    /// The index of the cell below `origin`, wrapping from the last row to
    /// the first.
    pub fn down_particle(&self, origin: usize) -> (down: usize)
        requires
            self.wf(),
            origin < self@.len(),
        ensures
            down == down_of(self.spec_width(), self.spec_height(), origin as int),
            down < self@.len(),
            down == if origin >= self.spec_width() * (self.spec_height() - 1) {
                origin as int % self.spec_width()
            } else {
                origin + self.spec_width()
            },
            self.spec_height() > 1 ==> down != origin,
    {
        proof {
            self.lemma_len_fits();
            lemma_neighbor_offsets(self.width as int, self.height as int, origin as int);
            lemma_neighbors_in_grid(self.width as int, self.height as int, origin as int);
            lemma_neighbors_apart(self.width as int, self.height as int, origin as int);
            lemma_last_row_start(self.width as int, self.height as int);
        }
        if origin >= self.width * (self.height - 1) {
            return origin % self.width;
        }
        origin + self.width
    }
}

/// The remainder of `i - 1` is the last one exactly when `i` is a multiple of `m`.
proof fn lemma_mod_of_predecessor(i: int, m: int)
    requires
        i >= 1,
        m > 0,
    ensures
        (i - 1) % m == m - 1 <==> i % m == 0,
{
    vstd::arithmetic::div_mod::lemma_fundamental_div_mod(i, m);
    vstd::arithmetic::div_mod::lemma_mod_pos_bound(i, m);
    let q: int = i / m;
    let r: int = i % m;
    assert(m * q == q * m) by (nonlinear_arith);
    if r == 0 {
        assert((q - 1) * m == q * m - m) by (nonlinear_arith);
        vstd::arithmetic::div_mod::lemma_fundamental_div_mod_converse(i - 1, m, q - 1, m - 1);
    } else {
        vstd::arithmetic::div_mod::lemma_fundamental_div_mod_converse(i - 1, m, q, r - 1);
    }
}

/// The last row starts at `width * (height - 1)`, which is `width` cells
/// before the end of the grid.
proof fn lemma_last_row_start(width: int, height: int)
    requires
        width > 0,
        height > 0,
    ensures
        0 <= width * (height - 1) == width * height - width,
{
    assert(0 <= width * (height - 1) == width * height - width) by (nonlinear_arith)
        requires
            width > 0,
            height > 0,
    ;
}

} // verus!
