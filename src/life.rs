use vstd::prelude::*;

verus! {

/// Whether `(row, col)` lies inside a grid of `width` columns and `height` rows.
pub open spec fn in_grid(width: int, height: int, row: int, col: int) -> bool {
    0 <= row < height && 0 <= col < width
}

/// Whether the cell `(row, col)` is live in `cells`, seen through a grid of the given size:
/// a cell outside the grid is never live, so the border of the grid is closed.
pub open spec fn live_at(cells: Set<(u16, u16)>, width: int, height: int, row: int, col: int) -> bool {
    in_grid(width, height, row, col) && cells.contains((row as u16, col as u16))
}

/// One for a live cell, zero for a dead one.
pub open spec fn count(b: bool) -> int {
    if b {
        1
    } else {
        0
    }
}

/// Number of live cells among the eight cells adjacent to `(row, col)`.
pub open spec fn neighbours(cells: Set<(u16, u16)>, width: int, height: int, row: int, col: int) -> int {
    count(live_at(cells, width, height, row - 1, col - 1))
        + count(live_at(cells, width, height, row - 1, col))
        + count(live_at(cells, width, height, row - 1, col + 1))
        + count(live_at(cells, width, height, row, col - 1))
        + count(live_at(cells, width, height, row, col + 1))
        + count(live_at(cells, width, height, row + 1, col - 1))
        + count(live_at(cells, width, height, row + 1, col))
        + count(live_at(cells, width, height, row + 1, col + 1))
}

/// Conway's rule for one cell: a dead cell with exactly three live neighbours is born,
/// a live cell with two or three live neighbours survives, every other cell is dead.
pub open spec fn rule(alive: bool, n: int) -> bool {
    if alive {
        n == 2 || n == 3
    } else {
        n == 3
    }
}

/// Whether `(row, col)` is live in the generation that follows `cells`.
pub open spec fn next_live(cells: Set<(u16, u16)>, width: int, height: int, row: int, col: int) -> bool {
    in_grid(width, height, row, col) && rule(
        live_at(cells, width, height, row, col),
        neighbours(cells, width, height, row, col),
    )
}

/// The generation that follows `cells` on a grid of the given size, every cell updated at once.
pub open spec fn next_generation(cells: Set<(u16, u16)>, width: int, height: int) -> Set<(u16, u16)> {
    Set::new(|p: (u16, u16)| next_live(cells, width, height, p.0 as int, p.1 as int))
}

/// The live set after flipping `(row, col)`; a cell outside the grid is left alone.
pub open spec fn toggled(cells: Set<(u16, u16)>, width: int, height: int, row: u16, col: u16) -> Set<(u16, u16)> {
    if !in_grid(width, height, row as int, col as int) {
        cells
    } else if cells.contains((row, col)) {
        cells.remove((row, col))
    } else {
        cells.insert((row, col))
    }
}

/// The cells of `cells` that lie inside the grid.
pub open spec fn within(cells: Set<(u16, u16)>, width: int, height: int) -> Set<(u16, u16)> {
    cells.filter(|p: (u16, u16)| in_grid(width, height, p.0 as int, p.1 as int))
}

/// Row of the top-left corner of the pulsar's box on the grid.
pub const PULSAR_TOP: u16 = 2;

/// Column of the top-left corner of the pulsar's box on the grid.
pub const PULSAR_LEFT: u16 = 2;

/// Whether `i` is the offset of one of the pulsar's four lines of cells.
pub open spec fn pulsar_line(i: int) -> bool {
    i == 0 || i == 5 || i == 7 || i == 12
}

/// Whether `i` is the offset of one of the pulsar's six arm cells along a line.
pub open spec fn pulsar_arm(i: int) -> bool {
    (2 <= i <= 4) || (8 <= i <= 10)
}

/// Whether the cell at offset `(dr, dc)` of the pulsar's 13×13 box is live.
pub open spec fn pulsar_offset(dr: int, dc: int) -> bool {
    (pulsar_line(dr) && pulsar_arm(dc)) || (pulsar_arm(dr) && pulsar_line(dc))
}

/// The pulsar, a period-three oscillator, with its box's corner at `(PULSAR_TOP, PULSAR_LEFT)`.
pub open spec fn pulsar() -> Set<(u16, u16)> {
    Set::new(|p: (u16, u16)| pulsar_offset(p.0 - PULSAR_TOP, p.1 - PULSAR_LEFT))
}

} // verus!
