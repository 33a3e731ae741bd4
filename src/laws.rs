use vstd::prelude::*;

use crate::life::{next_generation, next_live, toggled};
use crate::session::{transition, Event, Key, Mode, SessionView, Viewport};

verus! {

/// The 2×2 block with its top-left cell at `(row, col)`.
pub open spec fn block(row: u16, col: u16) -> Set<(u16, u16)> {
    set![(row, col), (row, (col + 1) as u16), ((row + 1) as u16, col), ((row + 1) as u16, (col + 1) as u16)]
}

/// Three live cells in a row, centred on `(row, col)`.
pub open spec fn blinker_horizontal(row: u16, col: u16) -> Set<(u16, u16)> {
    set![(row, (col - 1) as u16), (row, col), (row, (col + 1) as u16)]
}

/// Three live cells in a column, centred on `(row, col)`.
pub open spec fn blinker_vertical(row: u16, col: u16) -> Set<(u16, u16)> {
    set![((row - 1) as u16, col), (row, col), ((row + 1) as u16, col)]
}

/// A grid with no live cell stays without one: no cell can have three live neighbours.
pub proof fn lemma_empty_stays_empty(width: u16, height: u16)
    ensures
        next_generation(Set::<(u16, u16)>::empty(), width as int, height as int) == Set::<(u16, u16)>::empty(),
{
    assert(next_generation(Set::<(u16, u16)>::empty(), width as int, height as int) =~= Set::<(u16, u16)>::empty());
}

/// A 2×2 block that fits in the grid is a still life: each of its cells has three live
/// neighbours, and no cell outside it has three.
pub proof fn lemma_block_still_life(width: u16, height: u16, row: u16, col: u16)
    requires
        row + 1 < height,
        col + 1 < width,
    ensures
        next_generation(block(row, col), width as int, height as int) == block(row, col),
{
    let s = block(row, col);
    assert forall|p: (u16, u16)| #[trigger] next_generation(s, width as int, height as int).contains(p) <==> s.contains(p) by {
        assert(next_live(s, width as int, height as int, p.0 as int, p.1 as int) <==> s.contains(p));
    }
    assert(next_generation(s, width as int, height as int) =~= s);
}

/// A horizontal blinker that fits in the grid turns vertical in one step.
pub proof fn lemma_blinker_turns_vertical(width: u16, height: u16, row: u16, col: u16)
    requires
        1 <= row,
        row + 1 < height,
        1 <= col,
        col + 1 < width,
    ensures
        next_generation(blinker_horizontal(row, col), width as int, height as int) == blinker_vertical(row, col),
{
    let s = blinker_horizontal(row, col);
    let t = blinker_vertical(row, col);
    assert forall|p: (u16, u16)| #[trigger] next_generation(s, width as int, height as int).contains(p) <==> t.contains(p) by {
        assert(next_live(s, width as int, height as int, p.0 as int, p.1 as int) <==> t.contains(p));
    }
    assert(next_generation(s, width as int, height as int) =~= t);
}

/// A vertical blinker that fits in the grid turns horizontal in one step.
pub proof fn lemma_blinker_turns_horizontal(width: u16, height: u16, row: u16, col: u16)
    requires
        1 <= row,
        row + 1 < height,
        1 <= col,
        col + 1 < width,
    ensures
        next_generation(blinker_vertical(row, col), width as int, height as int) == blinker_horizontal(row, col),
{
    let s = blinker_vertical(row, col);
    let t = blinker_horizontal(row, col);
    assert forall|p: (u16, u16)| #[trigger] next_generation(s, width as int, height as int).contains(p) <==> t.contains(p) by {
        assert(next_live(s, width as int, height as int, p.0 as int, p.1 as int) <==> t.contains(p));
    }
    assert(next_generation(s, width as int, height as int) =~= t);
}

/// A blinker that fits in the grid oscillates with period two: after two steps each
/// orientation is back where it started.
pub proof fn lemma_blinker_period_two(width: u16, height: u16, row: u16, col: u16)
    requires
        1 <= row,
        row + 1 < height,
        1 <= col,
        col + 1 < width,
    ensures
        next_generation(
            next_generation(blinker_horizontal(row, col), width as int, height as int),
            width as int,
            height as int,
        ) == blinker_horizontal(row, col),
        next_generation(
            next_generation(blinker_vertical(row, col), width as int, height as int),
            width as int,
            height as int,
        ) == blinker_vertical(row, col),
{
    lemma_blinker_turns_vertical(width, height, row, col);
    lemma_blinker_turns_horizontal(width, height, row, col);
}

/// Toggling the same cell twice gives back the live set it started from, and so the
/// cell's own state.
pub proof fn lemma_toggle_involution(cells: Set<(u16, u16)>, width: u16, height: u16, row: u16, col: u16)
    ensures
        toggled(toggled(cells, width as int, height as int, row, col), width as int, height as int, row, col)
            == cells,
        toggled(toggled(cells, width as int, height as int, row, col), width as int, height as int, row, col).contains(
            (row, col),
        ) == cells.contains((row, col)),
{
    let once = toggled(cells, width as int, height as int, row, col);
    let twice = toggled(once, width as int, height as int, row, col);
    assert(twice =~= cells);
}

/// While editing, the toggle-play key starts the simulation: the session is then playing
/// and running, with the grid untouched.
pub proof fn lemma_toggle_play_starts(s: SessionView, vp: Viewport)
    requires
        s.mode == Mode::Insert,
    ensures
        transition(s, vp, Event::KeyInput(Key::Char(' '))).0.mode == Mode::Play,
        transition(s, vp, Event::KeyInput(Key::Char(' '))).0.running,
        transition(s, vp, Event::KeyInput(Key::Char(' '))).0.cells == s.cells,
{
}

/// While playing, a tick whose step leaves no live cell returns the session to editing
/// with the simulation stopped, so the next event already sees `Insert` and not running.
pub proof fn lemma_empty_step_stops_play(s: SessionView, vp: Viewport)
    requires
        s.mode == Mode::Play,
        s.running,
        next_generation(s.cells, s.width, s.height) == Set::<(u16, u16)>::empty(),
    ensures
        transition(s, vp, Event::Tick).0.mode == Mode::Insert,
        !transition(s, vp, Event::Tick).0.running,
        transition(s, vp, Event::Tick).0.cells == Set::<(u16, u16)>::empty(),
{
}

} // verus!
