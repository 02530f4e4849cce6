//! The materials and the rule that each follows during a tick.

use vstd::prelude::*;
use crate::coins::{CoinSource, Draws, Probe, nudge};
use crate::game::GameState;
use crate::model::{Grid, REGION_SIZE};
use crate::rules::{
    FIRE_HEAT, VINE_GROWTH, acid_step, dissolved, fall_target, fire_step, ignited, sand_step,
    seam_marked, seed_step, senses_acid, senses_fire, settled, step, vine_grown, vine_step,
    water_rested, water_step, wood_step,
};

verus! {

/// One grid cell: a material together with the state that it carries.
#[derive(Copy, Clone, Debug, PartialEq, Eq, Hash, Structural)]
pub enum Cell {
    /// The empty cell.
    Air,
    /// Falls under gravity.
    Sand,
    /// Inert until fire touches it; gone once `fuel` is used up.
    Wood { fuel: i32 },
    /// Spreads and cools; gone once `heat` is used up.
    Fire { heat: i32 },
    /// Falls, and takes root where it lands on sand.
    Seed,
    /// Grows while `growth` lasts; `grown` is set once the segment is stable.
    Vine { growth: i32, grown: bool },
    /// Falls and flows; `dx` is the horizontal drift that it keeps.
    Water { dx: i32 },
    /// Falls; `t` is positive once it has been moved or has come to rest.
    Acid { t: i32 },
}

/// Something that puts cells into the written grid once in every tick, after
/// the grid has been prepared and before the cells are evaluated. It may
/// write any cell anywhere; the size of the grid is not its to change.
pub trait Spawner {
    /// Whether one call may turn the grid `before` into the grid `after`.
    /// A spawner that does not say may do anything.
    open spec fn spawns(&self, before: Grid, after: Grid) -> bool {
        true
    }

    /// Puts this tick's cells into `write_state`.
    fn spawn(&mut self, write_state: &mut GameState)
        requires
            old(write_state).wf(),
        ensures
            final(write_state).wf(),
            final(write_state).size == old(write_state).size,
            old(self).spawns(old(write_state)@, final(write_state)@),
    ;
}

/// How many cells wide the brush is in its row `dy`.
pub open spec fn brush_width(dy: int) -> int {
    if 2 <= dy <= 6 {
        9
    } else {
        7
    }
}

/// Whether the brush covers the offset `(dx, dy)`: nine rows, the middle
/// five of nine cells and the two at either end of seven.
pub open spec fn in_brush(dx: int, dy: int) -> bool {
    0 <= dy < 9 && 0 <= dx < brush_width(dy)
}

/// Row `dy` of the brush, from left to right.
pub open spec fn brush_row(dy: int) -> Seq<(i32, i32)> {
    Seq::new(brush_width(dy) as nat, |i: int| (i as i32, dy as i32))
}

/// The first `n` rows of the brush, one after the other.
pub open spec fn brush_rows(n: nat) -> Seq<(i32, i32)>
    decreases n,
{
    if n == 0 {
        Seq::empty()
    } else {
        brush_rows((n - 1) as nat) + brush_row(n - 1)
    }
}

/// The offsets that the brush covers, row by row.
pub open spec fn brush() -> Seq<(i32, i32)> {
    brush_rows(9)
}

/// The grid `g` after `cell` has been written, marking, at `(x, y)` moved
/// by each of `offsets` in turn.
pub open spec fn stamped(g: Grid, cell: Cell, x: int, y: int, offsets: Seq<(i32, i32)>) -> Grid
    decreases offsets.len(),
{
    if offsets.len() == 0 {
        g
    } else {
        stamped(g, cell, x, y, offsets.drop_last()).write(
            cell,
            x + offsets.last().0,
            y + offsets.last().1,
            true,
        )
    }
}

/// A spawner that, while it is enabled, stamps one material through a
/// round brush whose upper left corner is at its position.
pub struct RadialSpawner {
    enabled: bool,
    x: i32,
    y: i32,
    deltas: Vec<(i32, i32)>,
    cell: Cell,
}

impl RadialSpawner {
    /// Whether the spawner writes at all.
    pub closed spec fn is_enabled(&self) -> bool {
        self.enabled
    }

    /// The upper left corner of the brush.
    pub closed spec fn position(&self) -> (i32, i32) {
        (self.x, self.y)
    }

    /// The material that is written.
    pub closed spec fn material(&self) -> Cell {
        self.cell
    }

    /// The offsets from the position at which the spawner writes.
    pub closed spec fn offsets(&self) -> Seq<(i32, i32)> {
        self.deltas@
    }

    /// A spawner at `(x, y)` that is switched off, with sand as its material
    /// and the round brush.
    pub fn new(x: i32, y: i32) -> (s: RadialSpawner)
        ensures
            !s.is_enabled(),
            s.position() == (x, y),
            s.material() == Cell::Sand,
            s.offsets() == brush(),
    {
        let mut deltas: Vec<(i32, i32)> = Vec::new();
        let mut dy: i32 = 0;
        while dy < 9
            invariant
                0 <= dy <= 9,
                deltas@ == brush_rows(dy as nat),
            decreases 9 - dy,
        {
            let width: i32 = if 2 <= dy && dy <= 6 { 9 } else { 7 };
            let ghost above = deltas@;
            let mut dx: i32 = 0;
            while dx < width
                invariant
                    0 <= dy < 9,
                    width == brush_width(dy as int),
                    0 <= dx <= width,
                    deltas@ == above + brush_row(dy as int).take(dx as int),
                decreases width - dx,
            {
                deltas.push((dx, dy));
                assert(brush_row(dy as int).take(dx + 1) == brush_row(dy as int).take(
                    dx as int,
                ).push((dx, dy)));
                dx = dx + 1;
            }
            dy = dy + 1;
        }
        RadialSpawner { x, y, deltas, enabled: false, cell: Cell::Sand }
    }

    /// Moves the brush to `(x, y)`.
    pub fn set_pos(&mut self, x: i32, y: i32)
        ensures
            final(self).position() == (x, y),
            final(self).is_enabled() == old(self).is_enabled(),
            final(self).material() == old(self).material(),
            final(self).offsets() == old(self).offsets(),
    {
        self.x = x;
        self.y = y;
    }

    /// Switches the spawner on.
    pub fn enable(&mut self)
        ensures
            final(self).is_enabled(),
            final(self).position() == old(self).position(),
            final(self).material() == old(self).material(),
            final(self).offsets() == old(self).offsets(),
    {
        self.enabled = true;
    }

    /// Switches the spawner off.
    pub fn disable(&mut self)
        ensures
            !final(self).is_enabled(),
            final(self).position() == old(self).position(),
            final(self).material() == old(self).material(),
            final(self).offsets() == old(self).offsets(),
    {
        self.enabled = false;
    }

    /// Makes `cell` the material that is written.
    pub fn set_cell(&mut self, cell: Cell)
        ensures
            final(self).material() == cell,
            final(self).is_enabled() == old(self).is_enabled(),
            final(self).position() == old(self).position(),
            final(self).offsets() == old(self).offsets(),
    {
        self.cell = cell
    }
}

impl Spawner for RadialSpawner {
    /// A spawner that is switched off leaves the grid as it is; one that is
    /// switched on stamps its material at every offset of its brush.
    open spec fn spawns(&self, before: Grid, after: Grid) -> bool {
        after == if self.is_enabled() {
            stamped(
                before,
                self.material(),
                self.position().0 as int,
                self.position().1 as int,
                self.offsets(),
            )
        } else {
            before
        }
    }

    fn spawn(&mut self, write_state: &mut GameState)
        ensures
            *final(self) == *old(self),
    {
        if !self.enabled {
            return ;
        }
        let ghost start = write_state@;
        let n: usize = self.deltas.len();
        let mut i: usize = 0;
        while i < n
            invariant
                write_state.wf(),
                write_state.size == old(write_state).size,
                n == self.deltas@.len(),
                0 <= i <= n,
                write_state@ == stamped(
                    start,
                    self.cell,
                    self.x as int,
                    self.y as int,
                    self.deltas@.take(i as int),
                ),
            decreases n - i,
        {
            let (dx, dy) = self.deltas[i];
            assert(self.deltas@.take(i + 1).drop_last() == self.deltas@.take(i as int));
            match (self.x.checked_add(dx), self.y.checked_add(dy)) {
                (Some(tx), Some(ty)) => {
                    write_state.write_cell(self.cell, tx, ty, true);
                },
                _ => {},
            }
            i = i + 1;
        }
        assert(self.deltas@.take(n as int) == self.deltas@);
    }
}

/// What gravity made of a cell.
#[derive(Copy, Clone, Debug, PartialEq, Eq, Structural)]
pub enum GravityResult {
    /// The cell could not fall and stays where it is.
    OnGround,
    /// The cell fell one row.
    Falling,
}

/// What the test for fire made of a cell.
#[derive(Copy, Clone, Debug, PartialEq, Eq, Structural)]
pub enum FireResult {
    Unaffected,
    /// The cell caught fire.
    Burnt,
}

/// What the test for acid made of a cell.
#[derive(Copy, Clone, Debug, PartialEq, Eq, Structural)]
pub enum AcidResult {
    Unaffected,
    /// Acid ate the cell, and was used up.
    Dissolved,
}

/// Marks the blocks that lie next to `(x, y)` across an edge of its own
/// block.
pub fn update_if_on_boundary(x: i32, y: i32, write_state: &mut GameState)
    requires
        old(write_state).wf(),
        old(write_state)@.in_bounds(x as int, y as int),
    ensures
        final(write_state).wf(),
        final(write_state).size == old(write_state).size,
        final(write_state)@ == seam_marked(x as int, y as int, old(write_state)@),
{
    if x % REGION_SIZE == 0 {
        write_state.mark_block_dirty(x - 1, y);
    }
    if y % REGION_SIZE == 0 {
        write_state.mark_block_dirty(x, y - 1);
    }
    if x % REGION_SIZE == REGION_SIZE - 1 {
        write_state.mark_block_dirty(x + 1, y);
    }
    if y % REGION_SIZE == REGION_SIZE - 1 {
        write_state.mark_block_dirty(x, y + 1);
    }
}

/// The test for fire: where the neighbor of `(x, y)` that `probe` picks
/// held fire when the tick began, the cell at `(x, y)` catches fire.
pub fn burn_near_fire(
    probe: Probe,
    x: i32,
    y: i32,
    read_state: &GameState,
    write_state: &mut GameState,
) -> (res: FireResult)
    requires
        read_state.wf(),
        old(write_state).wf(),
        old(write_state)@.in_bounds(x as int, y as int),
    ensures
        final(write_state).wf(),
        final(write_state).size == old(write_state).size,
        res is Burnt <==> senses_fire(probe, x as int, y as int, read_state@),
        final(write_state)@ == if res is Burnt {
            ignited(x as int, y as int, old(write_state)@)
        } else {
            old(write_state)@
        },
{
    let (tx, ty) = probe.at(x, y);
    match read_state.read_cell(tx, ty) {
        Cell::Fire { .. } => {
            write_state.write_cell(Cell::Fire { heat: FIRE_HEAT }, x, y, true);
            FireResult::Burnt
        },
        _ => FireResult::Unaffected,
    }
}

/// The test for acid: where the neighbor of `(x, y)` that `probe` picks
/// held acid when the tick began, that acid is used up, and the caller
/// leaves its own cell out of the written grid.
pub fn dissolve_in_acid(
    probe: Probe,
    x: i32,
    y: i32,
    read_state: &GameState,
    write_state: &mut GameState,
) -> (res: AcidResult)
    requires
        read_state.wf(),
        old(write_state).wf(),
        old(write_state)@.in_bounds(x as int, y as int),
    ensures
        final(write_state).wf(),
        final(write_state).size == old(write_state).size,
        res is Dissolved <==> senses_acid(probe, x as int, y as int, read_state@),
        final(write_state)@ == if res is Dissolved {
            dissolved(probe, x as int, y as int, old(write_state)@)
        } else {
            old(write_state)@
        },
{
    let (tx, ty) = probe.at(x, y);
    match read_state.read_cell(tx, ty) {
        Cell::Acid { .. } => {
            write_state.write_cell(Cell::Air, tx, ty, false);
            AcidResult::Dissolved
        },
        _ => AcidResult::Unaffected,
    }
}

/// Gravity on `cell` at `(x, y)`: straight down if that place is free, else
/// down and `sideways` over if that place is free, else not at all.
pub fn gravity(
    cell: Cell,
    x: i32,
    y: i32,
    sideways: i32,
    read_state: &GameState,
    write_state: &mut GameState,
) -> (res: GravityResult)
    requires
        read_state.wf(),
        old(write_state).wf(),
        old(write_state)@.in_bounds(x as int, y as int),
    ensures
        final(write_state).wf(),
        final(write_state).size == old(write_state).size,
        res is Falling <==> fall_target(
            x as int,
            y as int,
            sideways as int,
            read_state@,
            old(write_state)@,
        ) is Some,
        final(write_state)@ == settled(
            cell,
            x as int,
            y as int,
            sideways as int,
            read_state@,
            old(write_state)@,
        ),
{
    let new_y: i32 = y + 1;
    if read_state.is_empty(x, new_y) && write_state.is_empty(x, new_y) {
        write_state.write_cell(cell, x, new_y, true);
        write_state.mark_block_dirty(x, y);
        return GravityResult::Falling;
    }
    match x.checked_add(sideways) {
        Some(new_x) => {
            if read_state.is_empty(new_x, new_y) && write_state.is_empty(new_x, new_y) {
                write_state.write_cell(cell, new_x, new_y, true);
                write_state.mark_block_dirty(new_x, y);
                return GravityResult::Falling;
            }
        },
        None => {},
    }
    write_state.write_cell(cell, x, y, false);
    GravityResult::OnGround
}

/// The rule of sand at `(x, y)`.
pub fn update_sand(x: i32, y: i32, d: &Draws, read_state: &GameState, write_state: &mut GameState)
    requires
        read_state.wf(),
        old(write_state).wf(),
        old(write_state)@.in_bounds(x as int, y as int),
    ensures
        final(write_state).wf(),
        final(write_state).size == old(write_state).size,
        final(write_state)@ == sand_step(x as int, y as int, *d, read_state@, old(write_state)@),
{
    match dissolve_in_acid(d.acid, x, y, read_state, write_state) {
        AcidResult::Dissolved => {},
        AcidResult::Unaffected => {
            let sideways: i32 = if d.right { 1 } else { -1 };
            let _ = gravity(Cell::Sand, x, y, sideways, read_state, write_state);
        },
    }
}

/// The rule of wood with `fuel` at `(x, y)`.
pub fn update_wood(
    fuel: i32,
    x: i32,
    y: i32,
    d: &Draws,
    read_state: &GameState,
    write_state: &mut GameState,
)
    requires
        read_state.wf(),
        old(write_state).wf(),
        old(write_state)@.in_bounds(x as int, y as int),
    ensures
        final(write_state).wf(),
        final(write_state).size == old(write_state).size,
        final(write_state)@ == wood_step(
            fuel as int,
            x as int,
            y as int,
            *d,
            read_state@,
            old(write_state)@,
        ),
{
    if fuel <= 0 {
        return ;
    }
    match burn_near_fire(d.fire, x, y, read_state, write_state) {
        FireResult::Burnt => {},
        FireResult::Unaffected => {
            write_state.write_cell(Cell::Wood { fuel }, x, y, false);
        },
    }
}

/// The rule of fire with `heat` at `(x, y)`.
pub fn update_fire(
    heat: i32,
    x: i32,
    y: i32,
    d: &Draws,
    read_state: &GameState,
    write_state: &mut GameState,
)
    requires
        read_state.wf(),
        old(write_state).wf(),
        old(write_state)@.in_bounds(x as int, y as int),
    ensures
        final(write_state).wf(),
        final(write_state).size == old(write_state).size,
        final(write_state)@ == fire_step(
            heat as int,
            x as int,
            y as int,
            *d,
            read_state@,
            old(write_state)@,
        ),
{
    if heat <= 0 {
        return ;
    }
    let (tx, ty) = d.reach.at(x, y);
    match read_state.read_cell(tx, ty) {
        Cell::Air => {
            let degrade: i32 = if d.quick { 2 } else { 1 };
            write_state.write_cell(Cell::Fire { heat: heat - degrade }, tx, ty, true);
        },
        _ => {
            write_state.write_cell(Cell::Fire { heat: heat - 1 }, x, y, true);
            update_if_on_boundary(x, y, write_state);
        },
    }
}

/// The rule of a seed at `(x, y)`.
pub fn update_seed(x: i32, y: i32, d: &Draws, read_state: &GameState, write_state: &mut GameState)
    requires
        read_state.wf(),
        old(write_state).wf(),
        old(write_state)@.in_bounds(x as int, y as int),
    ensures
        final(write_state).wf(),
        final(write_state).size == old(write_state).size,
        final(write_state)@ == seed_step(x as int, y as int, *d, read_state@, old(write_state)@),
{
    let sideways: i32 = if d.right { 1 } else { -1 };
    match gravity(Cell::Seed, x, y, sideways, read_state, write_state) {
        GravityResult::OnGround => {
            match read_state.read_cell(x, y + 1) {
                Cell::Sand => {
                    write_state.write_cell(
                        Cell::Vine { growth: VINE_GROWTH, grown: false },
                        x,
                        y,
                        true,
                    );
                },
                _ => {
                    write_state.write_cell(Cell::Air, x, y, true);
                },
            }
        },
        GravityResult::Falling => {},
    }
}

/// What a vine segment at `(x, y)` does that neither burns nor dissolves:
/// it stays, or grows toward the neighbor that `probe` picks.
pub fn grow_vine(
    growth: i32,
    grown: bool,
    x: i32,
    y: i32,
    probe: Probe,
    read_state: &GameState,
    write_state: &mut GameState,
)
    requires
        read_state.wf(),
        old(write_state).wf(),
        old(write_state)@.in_bounds(x as int, y as int),
    ensures
        final(write_state).wf(),
        final(write_state).size == old(write_state).size,
        final(write_state)@ == vine_grown(
            growth as int,
            grown,
            x as int,
            y as int,
            probe,
            read_state@,
            old(write_state)@,
        ),
{
    let stable = growth <= 0 || grown;
    write_state.write_cell(Cell::Vine { growth, grown: stable }, x, y, !grown);
    if stable {
        return ;
    }
    let (tx, below) = probe.at(x, y);
    let ty: i32 = if below > y { y } else { below };
    match read_state.read_cell(tx, ty) {
        Cell::Air => {
            write_state.write_cell(Cell::Vine { growth: growth - 1, grown: false }, tx, ty, true);
            write_state.write_cell(Cell::Vine { growth, grown: true }, x, y, true);
        },
        _ => {
            write_state.write_cell(Cell::Vine { growth: growth - 1, grown: false }, x, y, true);
        },
    }
}

/// The rule of a vine segment at `(x, y)`.
pub fn update_vine(
    growth: i32,
    grown: bool,
    x: i32,
    y: i32,
    d: &Draws,
    read_state: &GameState,
    write_state: &mut GameState,
)
    requires
        read_state.wf(),
        old(write_state).wf(),
        old(write_state)@.in_bounds(x as int, y as int),
    ensures
        final(write_state).wf(),
        final(write_state).size == old(write_state).size,
        final(write_state)@ == vine_step(
            growth as int,
            grown,
            x as int,
            y as int,
            *d,
            read_state@,
            old(write_state)@,
        ),
{
    match burn_near_fire(d.fire, x, y, read_state, write_state) {
        FireResult::Burnt => {
            return ;
        },
        FireResult::Unaffected => {},
    }
    match dissolve_in_acid(d.acid, x, y, read_state, write_state) {
        AcidResult::Dissolved => {
            return ;
        },
        AcidResult::Unaffected => {},
    }
    grow_vine(growth, grown, x, y, d.reach, read_state, write_state);
}

/// What water with drift `dx` does that has come to rest at `(x, y)`, where
/// gravity has just written it: it sinks, flows or stays.
fn rest_water(
    dx: i32,
    x: i32,
    y: i32,
    d: &Draws,
    read_state: &GameState,
    write_state: &mut GameState,
    Ghost(start): Ghost<Grid>,
)
    requires
        read_state.wf(),
        old(write_state).wf(),
        start.in_bounds(x as int, y as int),
        old(write_state)@ == start.write(Cell::Water { dx }, x as int, y as int, false),
    ensures
        final(write_state).wf(),
        final(write_state).size == old(write_state).size,
        final(write_state)@ == water_rested(dx as int, x as int, y as int, *d, read_state@, start),
{
    match read_state.read_cell(x, y + 1) {
        Cell::Sand => {
            write_state.write_cell(Cell::Water { dx: 0 }, x, y + 1, true);
            write_state.write_cell(Cell::Sand, x, y, true);
            return ;
        },
        _ => {},
    }
    let sideways: Option<i32> = if dx == 0 {
        Some(nudge(x, d.drift_dec, d.drift_inc))
    } else {
        x.checked_add(dx)
    };
    match sideways {
        Some(to) => {
            if read_state.is_empty(to, y) && write_state.is_empty(to, y) {
                match x.checked_sub(to - x) {
                    Some(inverse) => {
                        write_state.mark_block_dirty(inverse, y);
                    },
                    None => {},
                }
                write_state.write_cell(Cell::Air, x, y, false);
                write_state.write_cell(Cell::Water { dx: to - x }, to, y, true);
                return ;
            }
        },
        None => {},
    }
    write_state.write_cell(Cell::Water { dx: 0 }, x, y, true);
}

/// The rule of water with drift `dx` at `(x, y)`.
pub fn update_water(
    dx: i32,
    x: i32,
    y: i32,
    d: &Draws,
    read_state: &GameState,
    write_state: &mut GameState,
)
    requires
        read_state.wf(),
        old(write_state).wf(),
        old(write_state)@.in_bounds(x as int, y as int),
    ensures
        final(write_state).wf(),
        final(write_state).size == old(write_state).size,
        final(write_state)@ == water_step(
            dx as int,
            x as int,
            y as int,
            *d,
            read_state@,
            old(write_state)@,
        ),
{
    match dissolve_in_acid(d.acid, x, y, read_state, write_state) {
        AcidResult::Dissolved => {
            return ;
        },
        AcidResult::Unaffected => {},
    }
    match gravity(Cell::Water { dx }, x, y, dx, read_state, write_state) {
        GravityResult::Falling => {},
        GravityResult::OnGround => {
            rest_water(dx, x, y, d, read_state, write_state, Ghost(old(write_state)@));
        },
    }
}

/// The rule of acid with marker `t` at `(x, y)`.
pub fn update_acid(
    t: i32,
    x: i32,
    y: i32,
    d: &Draws,
    read_state: &GameState,
    write_state: &mut GameState,
)
    requires
        read_state.wf(),
        old(write_state).wf(),
        old(write_state)@.in_bounds(x as int, y as int),
    ensures
        final(write_state).wf(),
        final(write_state).size == old(write_state).size,
        final(write_state)@ == acid_step(
            t as int,
            x as int,
            y as int,
            *d,
            read_state@,
            old(write_state)@,
        ),
{
    let sideways: i32 = if d.right { 1 } else { -1 };
    match gravity(Cell::Acid { t: 1 }, x, y, sideways, read_state, write_state) {
        GravityResult::OnGround => {
            if t > 0 {
                write_state.write_cell(Cell::Air, x, y, false);
            }
            write_state.mark_block_dirty(x, y + 1);
        },
        GravityResult::Falling => {},
    }
}

/// One evaluation of `cell` at `(x, y)` with the coins `d`: the rule of its
/// material reads `read_state`, the grid as the tick found it, and writes
/// into `write_state`, the grid that the tick builds. A cell whose place in
/// `write_state` is taken, or lies off that grid, does nothing.
pub fn update_cell_with(
    cell: Cell,
    x: i32,
    y: i32,
    d: &Draws,
    read_state: &GameState,
    write_state: &mut GameState,
)
    requires
        read_state.wf(),
        old(write_state).wf(),
    ensures
        final(write_state).wf(),
        final(write_state).size == old(write_state).size,
        final(write_state)@ == step(cell, x as int, y as int, *d, read_state@, old(write_state)@),
{
    proof {
        reveal(step);
    }
    if !write_state.is_empty(x, y) {
        return ;
    }
    match cell {
        Cell::Air => {},
        Cell::Sand => update_sand(x, y, d, read_state, write_state),
        Cell::Wood { fuel } => update_wood(fuel, x, y, d, read_state, write_state),
        Cell::Fire { heat } => update_fire(heat, x, y, d, read_state, write_state),
        Cell::Seed => update_seed(x, y, d, read_state, write_state),
        Cell::Vine { growth, grown } => update_vine(growth, grown, x, y, d, read_state, write_state),
        Cell::Water { dx } => update_water(dx, x, y, d, read_state, write_state),
        Cell::Acid { t } => update_acid(t, x, y, d, read_state, write_state),
    }
}

/// One evaluation of `cell` at `(x, y)` with coins from `rng`: whatever the
/// coins were, the written grid is what the rule makes of them.
pub fn update_cell<R: CoinSource>(
    cell: Cell,
    x: i32,
    y: i32,
    read_state: &GameState,
    write_state: &mut GameState,
    rng: &mut R,
)
    requires
        read_state.wf(),
        old(write_state).wf(),
    ensures
        final(write_state).wf(),
        final(write_state).size == old(write_state).size,
        exists|d: Draws|
            final(write_state)@ == #[trigger] step(
                cell,
                x as int,
                y as int,
                d,
                read_state@,
                old(write_state)@,
            ),
{
    if !write_state.is_empty(x, y) {
        proof {
            reveal(step);
            let d: Draws = arbitrary();
            assert(write_state@ == step(cell, x as int, y as int, d, read_state@, write_state@));
        }
        return ;
    }
    let d = Draws::draw_for(cell, rng);
    update_cell_with(cell, x, y, &d, read_state, write_state);
}

} // verus!
