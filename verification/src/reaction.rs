//! What the passes of the simulation do to the particles, stated cell by cell.
//!
//! A discharge pass takes the particles that are over the threshold when the
//! pass begins and fires them one after another, in ascending order of their
//! indices. A particle that fires loses its energy and flashes in the brightest
//! colour, then sends one unit of energy to each of its four neighbours, whose
//! colours follow their new energy. The result of a whole pass has a closed
//! form, `discharged`, that counts for each cell the units it is sent.

use crate::grid::quiescent;
use crate::grid::well_formed;
use crate::particle::over_limit;
use crate::particle::Particle;
use crate::particle::DIFFUSION_ENERGY;
use crate::particle::MAX_COLOR_INDEX;
use crate::topology::down_of;
use crate::topology::in_grid;
use crate::topology::left_of;
use crate::topology::lemma_neighbors_apart;
use crate::topology::lemma_neighbors_in_grid;
use crate::topology::lemma_opposite_steps_cancel;
use crate::topology::right_of;
use crate::topology::up_of;
use vstd::prelude::*;

verus! {

/// A discharge pass is due on every tick that this number divides.
pub const DISCHARGE_PERIOD: usize = 20;

/// A decay pass is due on every tick that this number divides.
pub const DECAY_PERIOD: usize = 30;

/// The colour that a particle takes when it is sent energy: its new energy,
/// capped at the brightest colour.
pub open spec fn shade(energy: int) -> int {
    if energy < MAX_COLOR_INDEX {
        energy
    } else {
        MAX_COLOR_INDEX as int
    }
}

/// 1 if cell `src` is over the threshold in `cells` and `lo <= src < hi`, else 0.
pub open spec fn hit(cells: Seq<Particle>, src: int, lo: int, hi: int) -> int {
    if lo <= src < hi && over_limit(cells[src]) {
        1
    } else {
        0
    }
}

/// The units of energy that cell `j` is sent by those of its neighbours that
/// are over the threshold in `cells` and have an index from `lo` up to, but not
/// including, `hi`. A cell is sent a unit by its left neighbour (which has it
/// to its right), by its right, its upper and its lower neighbour; a neighbour
/// that is reached in two directions sends two units.
pub open spec fn received(
    cells: Seq<Particle>,
    width: int,
    height: int,
    j: int,
    lo: int,
    hi: int,
) -> int {
    hit(cells, left_of(width, j), lo, hi) + hit(cells, right_of(width, j), lo, hi) + hit(
        cells,
        up_of(width, height, j),
        lo,
        hi,
    ) + hit(cells, down_of(width, height, j), lo, hi)
}

/// A particle that held `p` when the pass began and has been sent `got` units
/// that still count.
///
/// A particle that has fired holds what it was sent since, and is at its
/// brightest if that is nothing. Any other particle holds its old energy and
/// what it was sent, and keeps its colour if that is nothing. A particle that
/// was sent something shows the shade of its energy.
pub open spec fn settled(p: Particle, has_fired: bool, got: int) -> Particle {
    let energy = if has_fired {
        got
    } else {
        p.energy + got
    };
    Particle {
        energy: energy as u8,
        color: if got > 0 {
            shade(energy) as usize
        } else if has_fired {
            MAX_COLOR_INDEX
        } else {
            p.color
        },
        index: p.index,
    }
}

/// Cell `j` once the particles that are over the threshold in `cells` and lie
/// below `bound` have fired, in ascending order.
///
/// If the particle in cell `j` is among them, the units that count are those
/// from the neighbours that fired with it or after it: what came before was
/// lost when it fired. Otherwise every unit counts.
pub open spec fn cell_after(
    cells: Seq<Particle>,
    width: int,
    height: int,
    j: int,
    bound: int,
) -> Particle {
    let has_fired = over_limit(cells[j]) && j < bound;
    let since = if has_fired {
        j
    } else {
        0
    };
    settled(cells[j], has_fired, received(cells, width, height, j, since, bound))
}

/// The particles once those that are over the threshold in `cells` and lie
/// below `bound` have fired.
pub open spec fn discharged_through(
    cells: Seq<Particle>,
    width: int,
    height: int,
    bound: int,
) -> Seq<Particle> {
    Seq::new(cells.len(), |j: int| cell_after(cells, width, height, j, bound))
}

/// The particles after a whole discharge pass over `cells`.
pub open spec fn discharged(cells: Seq<Particle>, width: int, height: int) -> Seq<Particle> {
    discharged_through(cells, width, height, cells.len() as int)
}

/// The particle in cell `j` stays in the range of a `u8` during a discharge
/// pass over `cells`. Only a particle that is over the threshold can come near
/// the end of the range, through the units that it is sent before it fires
/// itself.
pub open spec fn fires_safely(cells: Seq<Particle>, width: int, height: int, j: int) -> bool {
    over_limit(cells[j]) ==> cells[j].energy + received(cells, width, height, j, 0, j) <= u8::MAX
}

/// No energy leaves the range of a `u8` during a discharge pass over `cells`.
pub open spec fn discharge_fits(cells: Seq<Particle>, width: int, height: int) -> bool {
    forall|j: int| 0 <= j < cells.len() ==> #[trigger] fires_safely(cells, width, height, j)
}

/// `cells` with the particle in cell `i` emptied and at its brightest.
pub open spec fn reset(cells: Seq<Particle>, i: int) -> Seq<Particle> {
    cells.update(i, Particle { energy: 0, color: MAX_COLOR_INDEX, index: cells[i].index })
}

/// `cells` with one more unit of energy in cell `q`, whose colour follows.
pub open spec fn bumped(cells: Seq<Particle>, q: int) -> Seq<Particle> {
    cells.update(
        q,
        Particle {
            energy: (cells[q].energy + 1) as u8,
            color: shade(cells[q].energy + 1) as usize,
            index: cells[q].index,
        },
    )
}

/// `cells` after the particle in cell `i` has fired: it is reset, then its
/// left, right, upper and lower neighbours are sent one unit each.
pub open spec fn fired(cells: Seq<Particle>, width: int, height: int, i: int) -> Seq<Particle> {
    bumped(
        bumped(
            bumped(bumped(reset(cells, i), left_of(width, i)), right_of(width, i)),
            up_of(width, height, i),
        ),
        down_of(width, height, i),
    )
}

/// No energy leaves the range of a `u8` while the particle in cell `i` of
/// `cells` fires.
pub open spec fn fire_fits(cells: Seq<Particle>, width: int, height: int, i: int) -> bool {
    let emptied = reset(cells, i);
    let first = bumped(emptied, left_of(width, i));
    let second = bumped(first, right_of(width, i));
    let third = bumped(second, up_of(width, height, i));
    &&& emptied[left_of(width, i)].energy < u8::MAX
    &&& first[right_of(width, i)].energy < u8::MAX
    &&& second[up_of(width, height, i)].energy < u8::MAX
    &&& third[down_of(width, height, i)].energy < u8::MAX
}

/// The particle `p` one step darker, unless it is dark already. Its energy stays.
pub open spec fn faded(p: Particle) -> Particle {
    Particle {
        energy: p.energy,
        color: if p.color > 0 {
            (p.color - 1) as usize
        } else {
            0
        },
        index: p.index,
    }
}

/// The particles after a decay pass over `cells`: each one step darker.
pub open spec fn decayed(cells: Seq<Particle>) -> Seq<Particle> {
    Seq::new(cells.len(), |i: int| faded(cells[i]))
}

/// `cells` with one more unit of energy in cell `i`, whose colour stays.
pub open spec fn energy_added(cells: Seq<Particle>, i: int) -> Seq<Particle> {
    cells.update(
        i,
        Particle {
            energy: (cells[i].energy + 1) as u8,
            color: cells[i].color,
            index: cells[i].index,
        },
    )
}

/// The cell that the random number `draw` picks among `count` cells.
pub open spec fn injection_index(draw: u32, count: int) -> int {
    draw as int % count
}

/// `cells` after an injection that the random number `draw` places.
pub open spec fn injected(cells: Seq<Particle>, draw: u32) -> Seq<Particle> {
    energy_added(cells, injection_index(draw, cells.len() as int))
}

/// An injection into `cells` leaves the range of a `u8` wherever it falls.
/// Nothing is injected unless the grid is quiescent.
pub open spec fn injection_fits(cells: Seq<Particle>) -> bool {
    quiescent(cells) ==> forall|draw: u32|
        0 <= #[trigger] injection_index(draw, cells.len() as int) < cells.len() ==> cells[injection_index(
            draw,
            cells.len() as int,
        )].energy < u8::MAX
}

/// The particles after the passes that are due at tick `ticks`: a discharge
/// pass on every `DISCHARGE_PERIOD`-th tick, then a decay pass on every
/// `DECAY_PERIOD`-th tick.
pub open spec fn advanced(cells: Seq<Particle>, width: int, height: int, ticks: int) -> Seq<
    Particle,
> {
    let sparked = if ticks % (DISCHARGE_PERIOD as int) == 0 {
        discharged(cells, width, height)
    } else {
        cells
    };
    if ticks % (DECAY_PERIOD as int) == 0 {
        decayed(sparked)
    } else {
        sparked
    }
}

/// No energy leaves the range of a `u8` during the step at tick `ticks`:
/// neither in the discharge pass, if one is due, nor in the injection that
/// follows the passes.
pub open spec fn update_fits(cells: Seq<Particle>, width: int, height: int, ticks: int) -> bool {
    &&& ticks % (DISCHARGE_PERIOD as int) == 0 ==> discharge_fits(cells, width, height)
    &&& injection_fits(advanced(cells, width, height, ticks))
}

/// Cell `q` is the left, right, upper or lower neighbour of cell `i`.
pub open spec fn is_neighbor(width: int, height: int, i: int, q: int) -> bool {
    q == left_of(width, i) || q == right_of(width, i) || q == up_of(width, height, i) || q
        == down_of(width, height, i)
}

/// The particle in cell `lone` is the only one of `cells` over the threshold.
pub open spec fn lone_over_limit(cells: Seq<Particle>, lone: int) -> bool {
    &&& 0 <= lone < cells.len()
    &&& forall|j: int| 0 <= j < cells.len() ==> (over_limit(#[trigger] cells[j]) <==> j == lone)
}

/// A particle that is over the threshold when a discharge pass begins is
/// empty and at its brightest when the pass ends, provided that none of its
/// neighbours fires with it or after it: what such a neighbour sends stays.
pub proof fn lemma_discharged_particle_is_reset(
    cells: Seq<Particle>,
    width: int,
    height: int,
    j: int,
)
    requires
        well_formed(cells, width, height),
        0 <= j < cells.len(),
        over_limit(cells[j]),
        received(cells, width, height, j, j, cells.len() as int) == 0,
    ensures
        discharged(cells, width, height)[j].energy == 0,
        discharged(cells, width, height)[j].color == MAX_COLOR_INDEX,
        discharged(cells, width, height)[j].index == cells[j].index,
{
}

/// If the particle in cell `lone` is the only one over the threshold, then in
/// a grid of at least three columns and three rows a discharge pass empties
/// that particle and lights it up, gives each of its four neighbours exactly
/// one unit of energy and the shade of its new energy, and leaves every other
/// particle as it was.
pub proof fn lemma_lone_discharge(cells: Seq<Particle>, width: int, height: int, lone: int)
    requires
        well_formed(cells, width, height),
        width >= 3,
        height >= 3,
        lone_over_limit(cells, lone),
    ensures
        discharged(cells, width, height)[lone] == (Particle {
            energy: 0,
            color: MAX_COLOR_INDEX,
            index: cells[lone].index,
        }),
        forall|q: int|
            is_neighbor(width, height, lone, q) ==> 0 <= q < cells.len() && #[trigger] discharged(
                cells,
                width,
                height,
            )[q] == (Particle {
                energy: (cells[q].energy + 1) as u8,
                color: shade(cells[q].energy + 1) as usize,
                index: cells[q].index,
            }) && cells[q].energy + 1 <= u8::MAX,
        forall|j: int|
            0 <= j < cells.len() && j != lone && !is_neighbor(width, height, lone, j)
                ==> #[trigger] discharged(cells, width, height)[j] == cells[j],
{
    let after = discharged(cells, width, height);
    let count = cells.len() as int;
    lemma_neighbors_in_grid(width, height, lone);
    lemma_neighbors_apart(width, height, lone);
    lemma_opposite_steps_cancel(width, height, lone);
    assert forall|j: int| 0 <= j < cells.len() implies received(cells, width, height, j, 0, count)
        == sent(width, height, lone, j) && received(cells, width, height, j, j, count) == if j
        <= lone {
        sent(width, height, lone, j)
    } else {
        0
    } by {
        lemma_neighbors_in_grid(width, height, j);
        lemma_opposite_steps_cancel(width, height, j);
    }
    assert(sent(width, height, lone, lone) == 0);
    assert forall|q: int| is_neighbor(width, height, lone, q) implies 0 <= q < cells.len()
        && after[q] == (Particle {
        energy: (cells[q].energy + 1) as u8,
        color: shade(cells[q].energy + 1) as usize,
        index: cells[q].index,
    }) && cells[q].energy + 1 <= u8::MAX by {
        assert(sent(width, height, lone, q) == 1);
    }
    assert forall|j: int|
        0 <= j < cells.len() && j != lone && !is_neighbor(width, height, lone, j) implies after[j]
        == cells[j] by {
        assert(sent(width, height, lone, j) == 0);
    }
}

/// After a discharge pass no particle holds more than the threshold and four
/// units: what was over the threshold has fired, and a particle is sent four
/// units at most.
pub proof fn lemma_discharged_energy_is_small(cells: Seq<Particle>, width: int, height: int)
    requires
        discharge_fits(cells, width, height),
    ensures
        forall|j: int|
            0 <= j < cells.len() ==> (#[trigger] discharged(cells, width, height)[j]).energy
                <= DIFFUSION_ENERGY + 4,
{
    let count = cells.len() as int;
    assert forall|j: int| 0 <= j < cells.len() implies (#[trigger] discharged(
        cells,
        width,
        height,
    )[j]).energy <= DIFFUSION_ENERGY + 4 by {
        assert(fires_safely(cells, width, height, j));
        lemma_received_bounds(cells, width, height, j, 0, count, count);
        lemma_received_bounds(cells, width, height, j, j, count, count);
    }
}

/// A cell is sent at most four units, and no fewer from a wider range of
/// senders.
pub proof fn lemma_received_bounds(
    cells: Seq<Particle>,
    width: int,
    height: int,
    j: int,
    lo: int,
    mid: int,
    hi: int,
)
    requires
        lo <= mid <= hi,
    ensures
        0 <= received(cells, width, height, j, lo, mid) <= received(cells, width, height, j, lo, hi)
            <= 4,
        received(cells, width, height, j, lo, hi) == received(cells, width, height, j, lo, mid)
            + received(cells, width, height, j, mid, hi),
{
}

/// Before anything has fired the particles are as they were.
pub proof fn lemma_nothing_fired(cells: Seq<Particle>, width: int, height: int)
    ensures
        discharged_through(cells, width, height, 0) == cells,
{
    assert(discharged_through(cells, width, height, 0) =~= cells);
}

/// The bound may move over cells that are not over the threshold: only
/// particles over the threshold fire.
pub proof fn lemma_skip_idle(cells: Seq<Particle>, width: int, height: int, from: int, to: int)
    requires
        from <= to,
        forall|j: int| from <= j < to ==> !over_limit(#[trigger] cells[j]),
    ensures
        discharged_through(cells, width, height, from) == discharged_through(
            cells,
            width,
            height,
            to,
        ),
{
    assert forall|j: int| 0 <= j < cells.len() implies cell_after(cells, width, height, j, from)
        == cell_after(cells, width, height, j, to) by {
        assert(forall|src: int, lo: int| hit(cells, src, lo, from) == hit(cells, src, lo, to));
    }
    assert(discharged_through(cells, width, height, from) =~= discharged_through(
        cells,
        width,
        height,
        to,
    ));
}

/// Firing the next particle moves the bound up by one: if cell `i` is over
/// the threshold in `cells` and the particles below it have fired, then once
/// it has fired too the particles are as `discharged_through` says for the
/// bound `i + 1`. No energy leaves the range of a `u8` on the way.
pub proof fn lemma_fire_next(cells: Seq<Particle>, width: int, height: int, i: int)
    requires
        well_formed(cells, width, height),
        discharge_fits(cells, width, height),
        0 <= i < cells.len(),
        over_limit(cells[i]),
    ensures
        fired(discharged_through(cells, width, height, i), width, height, i) == discharged_through(
            cells,
            width,
            height,
            i + 1,
        ),
        fire_fits(discharged_through(cells, width, height, i), width, height, i),
{
    let before = discharged_through(cells, width, height, i);
    let after = fired(before, width, height, i);
    lemma_neighbors_in_grid(width, height, i);
    assert forall|j: int| 0 <= j < cells.len() implies after[j] == cell_after(
        cells,
        width,
        height,
        j,
        i + 1,
    ) by {
        lemma_fire_cell(cells, width, height, i, j);
    }
    assert(after =~= discharged_through(cells, width, height, i + 1));
    lemma_fire_cell(cells, width, height, i, left_of(width, i));
    lemma_fire_cell(cells, width, height, i, right_of(width, i));
    lemma_fire_cell(cells, width, height, i, up_of(width, height, i));
    lemma_fire_cell(cells, width, height, i, down_of(width, height, i));
}

/// The units that cell `j` is sent when cell `i` fires.
spec fn sent(width: int, height: int, i: int, j: int) -> int {
    (if left_of(width, i) == j {
        1int
    } else {
        0int
    }) + (if right_of(width, i) == j {
        1int
    } else {
        0int
    }) + (if up_of(width, height, i) == j {
        1int
    } else {
        0int
    }) + (if down_of(width, height, i) == j {
        1int
    } else {
        0int
    })
}

/// 1 if `q` is `j`, else 0.
spec fn one_if(q: int, j: int) -> int {
    if q == j {
        1
    } else {
        0
    }
}

/// The particle `p` after it has been sent `units` units of energy.
spec fn charged(p: Particle, units: int) -> Particle {
    Particle {
        energy: (p.energy + units) as u8,
        color: if units > 0 {
            shade(p.energy + units) as usize
        } else {
            p.color
        },
        index: p.index,
    }
}

/// The energy of cell `j` fits a `u8` at each step of the firing of cell `i`.
spec fn fire_fits_at(cells: Seq<Particle>, width: int, height: int, i: int, j: int) -> bool {
    let emptied = reset(cells, i);
    let first = bumped(emptied, left_of(width, i));
    let second = bumped(first, right_of(width, i));
    let third = bumped(second, up_of(width, height, i));
    &&& emptied[j].energy + one_if(left_of(width, i), j) <= u8::MAX
    &&& first[j].energy + one_if(right_of(width, i), j) <= u8::MAX
    &&& second[j].energy + one_if(up_of(width, height, i), j) <= u8::MAX
    &&& third[j].energy + one_if(down_of(width, height, i), j) <= u8::MAX
}

/// What cell `i` sends to cell `j` is what cell `j` is sent by cell `i`.
proof fn lemma_sent_is_received(
    cells: Seq<Particle>,
    width: int,
    height: int,
    i: int,
    j: int,
    lo: int,
)
    requires
        in_grid(width, height, i),
        in_grid(width, height, j),
        over_limit(cells[i]),
    ensures
        received(cells, width, height, j, lo, i + 1) == received(cells, width, height, j, lo, i)
            + if lo <= i {
            sent(width, height, i, j)
        } else {
            0
        },
{
    lemma_opposite_steps_cancel(width, height, i);
    lemma_opposite_steps_cancel(width, height, j);
}

/// Four units sent one after another, to the cells `a`, `b`, `c` and `d`,
/// charge cell `j` by as many units as there are cells among them that are `j`.
proof fn lemma_four_bumps(cells: Seq<Particle>, a: int, b: int, c: int, d: int, j: int)
    requires
        0 <= a < cells.len(),
        0 <= b < cells.len(),
        0 <= c < cells.len(),
        0 <= d < cells.len(),
        0 <= j < cells.len(),
        cells[j].energy + one_if(a, j) + one_if(b, j) + one_if(c, j) + one_if(d, j) <= u8::MAX,
    ensures
        bumped(cells, a)[j] == charged(cells[j], one_if(a, j)),
        bumped(bumped(cells, a), b)[j] == charged(cells[j], one_if(a, j) + one_if(b, j)),
        bumped(bumped(bumped(cells, a), b), c)[j] == charged(
            cells[j],
            one_if(a, j) + one_if(b, j) + one_if(c, j),
        ),
        bumped(bumped(bumped(bumped(cells, a), b), c), d)[j] == charged(
            cells[j],
            one_if(a, j) + one_if(b, j) + one_if(c, j) + one_if(d, j),
        ),
{
    let first = bumped(cells, a);
    assert(first[j] == charged(cells[j], one_if(a, j)));
    let second = bumped(first, b);
    assert(second[j] == charged(cells[j], one_if(a, j) + one_if(b, j)));
    let third = bumped(second, c);
    assert(third[j] == charged(cells[j], one_if(a, j) + one_if(b, j) + one_if(c, j)));
}

/// The step from one bound to the next for a single particle, in numbers:
/// `all` and `late` are the units that it was sent by any neighbour and by
/// those that fired no earlier than itself, `units` those that the firing
/// particle sends it, and `now` is the particle as that firing finds it
/// (emptied, if it is the one that fires).
proof fn lemma_settle_next(
    p: Particle,
    j: int,
    i: int,
    all: int,
    late: int,
    units: int,
    now: Particle,
)
    requires
        0 <= late <= all <= 4,
        0 <= units <= 4,
        j == i ==> late == 0 && over_limit(p),
        j != i ==> now == settled(
            p,
            over_limit(p) && j < i,
            if over_limit(p) && j < i {
                late
            } else {
                all
            },
        ),
        j == i ==> now == (Particle { energy: 0, color: MAX_COLOR_INDEX, index: p.index }),
        !(over_limit(p) && j <= i) ==> p.energy + all + units <= u8::MAX,
    ensures
        charged(now, units) == settled(
            p,
            over_limit(p) && j < i + 1,
            if over_limit(p) && j < i + 1 {
                late + units
            } else {
                all + units
            },
        ),
        now.energy + units <= u8::MAX,
{
}

/// One cell's view of the next particle's firing.
proof fn lemma_fire_cell(cells: Seq<Particle>, width: int, height: int, i: int, j: int)
    requires
        well_formed(cells, width, height),
        discharge_fits(cells, width, height),
        0 <= i < cells.len(),
        0 <= j < cells.len(),
        over_limit(cells[i]),
    ensures
        fired(discharged_through(cells, width, height, i), width, height, i)[j] == cell_after(
            cells,
            width,
            height,
            j,
            i + 1,
        ),
        fire_fits_at(discharged_through(cells, width, height, i), width, height, i, j),
{
    let before = discharged_through(cells, width, height, i);
    let emptied = reset(before, i);
    assert(fires_safely(cells, width, height, j));
    let l = left_of(width, i);
    let r = right_of(width, i);
    let u = up_of(width, height, i);
    let d = down_of(width, height, i);
    let units = sent(width, height, i, j);
    let all = received(cells, width, height, j, 0, i);
    let late = if j <= i {
        received(cells, width, height, j, j, i)
    } else {
        0
    };
    lemma_neighbors_in_grid(width, height, i);
    lemma_sent_is_received(cells, width, height, i, j, 0);
    lemma_sent_is_received(cells, width, height, i, j, j);
    lemma_received_bounds(cells, width, height, j, 0, i, i + 1);
    if j <= i {
        lemma_received_bounds(cells, width, height, j, 0, j, i);
        lemma_received_bounds(cells, width, height, j, j, i, i + 1);
    } else {
        lemma_received_bounds(cells, width, height, j, 0, i + 1, j);
    }
    assert(before[j] == cell_after(cells, width, height, j, i));
    lemma_settle_next(cells[j], j, i, all, late, units, emptied[j]);
    lemma_four_bumps(emptied, l, r, u, d, j);
}

} // verus!
