use vstd::prelude::*;

use crate::life::{next_generation, pulsar, toggled, within};
use crate::world::World;

verus! {

/// What the user is doing: editing cells, or watching the simulation.
#[derive(Clone, Copy, Debug, PartialEq, Eq, Structural)]
pub enum Mode {
    Insert,
    Play,
}

/// A key as the input source reports it.
#[derive(Clone, Copy, Debug, PartialEq, Eq, Structural)]
pub enum Key {
    Char(char),
    Enter,
    Delete,
    Other,
}

/// What a key asks the controller to do.
#[derive(Clone, Copy, Debug, PartialEq, Eq, Structural)]
pub enum Command {
    TogglePlay,
    SwitchToInsert,
    SwitchToPlay,
    Clear,
    LoadPreset,
    Save,
    Quit,
    Ignore,
}

/// One event of the merged input stream: a key, a left click at a screen position
/// `(row, col)`, or a timer tick.
#[derive(Clone, Copy, Debug, PartialEq, Eq, Structural)]
pub enum Event {
    KeyInput(Key),
    LeftClick(u16, u16),
    Tick,
}

/// What the caller has to do after an event has been handled.
#[derive(Clone, Copy, Debug, PartialEq, Eq, Structural)]
pub enum Action {
    Continue,
    Save,
    Quit,
}

/// The screen rectangle the grid is drawn in, its one-cell border included.
#[derive(Clone, Copy, Debug, PartialEq, Eq, Structural)]
pub struct Viewport {
    pub top: u16,
    pub left: u16,
    pub width: u16,
    pub height: u16,
}

/// The key bindings: space toggles play, `i` edits, Enter plays, Delete clears, `1` loads
/// the preset, `s` saves, `q` quits; every other key is ignored.
pub open spec fn command_spec(key: Key) -> Command {
    match key {
        Key::Char(' ') => Command::TogglePlay,
        Key::Char('i') => Command::SwitchToInsert,
        Key::Enter => Command::SwitchToPlay,
        Key::Delete => Command::Clear,
        Key::Char('1') => Command::LoadPreset,
        Key::Char('s') => Command::Save,
        Key::Char('q') => Command::Quit,
        _ => Command::Ignore,
    }
}

/// The grid cell under the screen position `(row, col)`: the position less the viewport's
/// corner and its border, or `None` for a position outside the area inside the border.
pub open spec fn cell_at_spec(vp: Viewport, row: u16, col: u16) -> Option<(u16, u16)> {
    if vp.top < row && row + 1 < vp.top + vp.height && vp.left < col && col + 1 < vp.left + vp.width {
        Some(((row - vp.top - 1) as u16, (col - vp.left - 1) as u16))
    } else {
        None
    }
}

/// The state of a session as the contracts see it.
pub struct SessionView {
    pub cells: Set<(u16, u16)>,
    pub width: int,
    pub height: int,
    pub mode: Mode,
    pub running: bool,
}

/// The state after a tick: while playing, the grid advances one generation, and a grid
/// left empty sends the session back to editing.
pub open spec fn after_tick(s: SessionView) -> SessionView {
    if s.mode == Mode::Play && s.running {
        let cells = next_generation(s.cells, s.width, s.height);
        if cells == Set::<(u16, u16)>::empty() {
            SessionView { cells, mode: Mode::Insert, running: false, ..s }
        } else {
            SessionView { cells, ..s }
        }
    } else {
        s
    }
}

/// The state and action after a command.
pub open spec fn after_command(s: SessionView, c: Command) -> (SessionView, Action) {
    match c {
        Command::TogglePlay => if s.mode == Mode::Insert {
            (SessionView { mode: Mode::Play, running: true, ..s }, Action::Continue)
        } else {
            (SessionView { running: !s.running, ..s }, Action::Continue)
        },
        Command::SwitchToInsert => (SessionView { mode: Mode::Insert, running: false, ..s }, Action::Continue),
        Command::SwitchToPlay => if s.mode == Mode::Insert {
            (SessionView { mode: Mode::Play, running: true, ..s }, Action::Continue)
        } else {
            (s, Action::Continue)
        },
        Command::Clear => if s.mode == Mode::Insert {
            (SessionView { cells: Set::empty(), ..s }, Action::Continue)
        } else {
            (s, Action::Continue)
        },
        Command::LoadPreset => (
            SessionView { cells: within(pulsar(), s.width, s.height), mode: Mode::Play, running: true, ..s },
            Action::Continue,
        ),
        Command::Save => if s.mode == Mode::Insert {
            (s, Action::Save)
        } else {
            (s, Action::Continue)
        },
        Command::Quit => (s, Action::Quit),
        Command::Ignore => (s, Action::Continue),
    }
}

/// The state and action after one event; a click toggles a cell only while editing.
pub open spec fn transition(s: SessionView, vp: Viewport, e: Event) -> (SessionView, Action) {
    match e {
        Event::Tick => (after_tick(s), Action::Continue),
        Event::KeyInput(k) => after_command(s, command_spec(k)),
        Event::LeftClick(row, col) => match cell_at_spec(vp, row, col) {
            Some(p) => if s.mode == Mode::Insert {
                (SessionView { cells: toggled(s.cells, s.width, s.height, p.0, p.1), ..s }, Action::Continue)
            } else {
                (s, Action::Continue)
            },
            None => (s, Action::Continue),
        },
    }
}

/// Maps a key to the command it is bound to.
pub fn command_of(key: Key) -> (c: Command)
    ensures
        c == command_spec(key),
{
    match key {
        Key::Char(' ') => Command::TogglePlay,
        Key::Char('i') => Command::SwitchToInsert,
        Key::Enter => Command::SwitchToPlay,
        Key::Delete => Command::Clear,
        Key::Char('1') => Command::LoadPreset,
        Key::Char('s') => Command::Save,
        Key::Char('q') => Command::Quit,
        _ => Command::Ignore,
    }
}

impl Viewport {
    /// The grid cell under the screen position `(row, col)`, if it lies inside the border.
    pub fn cell_at(&self, row: u16, col: u16) -> (r: Option<(u16, u16)>)
        ensures
            r == cell_at_spec(*self, row, col),
    {
        if self.top < row && (row as u32) + 1 < (self.top as u32) + (self.height as u32)
            && self.left < col && (col as u32) + 1 < (self.left as u32) + (self.width as u32) {
            Some((row - self.top - 1, col - self.left - 1))
        } else {
            None
        }
    }
}

/// A running session: the grid, the mode, whether the simulation runs, and where the grid
/// is drawn.
pub struct Session {
    pub world: World,
    pub mode: Mode,
    pub running: bool,
    pub viewport: Viewport,
}

impl View for Session {
    type V = SessionView;

    open spec fn view(&self) -> SessionView {
        SessionView {
            cells: self.world.cells(),
            width: self.world.width as int,
            height: self.world.height as int,
            mode: self.mode,
            running: self.running,
        }
    }
}

impl Session {
    /// The grid lists each cell once, and the simulation never runs while editing.
    pub open spec fn wf(&self) -> bool {
        &&& self.world.wf()
        &&& (self.mode == Mode::Insert ==> !self.running)
    }

    /// A session on an empty grid of the given size, editing, with the simulation stopped.
    pub fn new(width: u16, height: u16, viewport: Viewport) -> (r: Self)
        ensures
            r.wf(),
            r@.cells == Set::<(u16, u16)>::empty(),
            r@.width == width,
            r@.height == height,
            r@.mode == Mode::Insert,
            !r@.running,
            r.viewport == viewport,
    {
        let world = World::new(width, height);
        assert(world.alive@.to_set() =~= Set::<(u16, u16)>::empty());
        Session { world, mode: Mode::Insert, running: false, viewport }
    }

    /// Sets where the grid is drawn.
    pub fn set_viewport(&mut self, viewport: Viewport)
        ensures
            final(self)@ == old(self)@,
            final(self).wf() == old(self).wf(),
            final(self).viewport == viewport,
    {
        self.viewport = viewport;
    }

    /// Handles one event: updates the grid and the mode, and says what the caller must do.
    pub fn handle_event(&mut self, e: Event) -> (r: Action)
        requires
            old(self).wf(),
        ensures
            final(self).wf(),
            final(self).viewport == old(self).viewport,
            (final(self)@, r) == transition(old(self)@, old(self).viewport, e),
    {
        match e {
            Event::Tick => {
                self.tick();
                Action::Continue
            },
            Event::KeyInput(k) => self.run_command(command_of(k)),
            Event::LeftClick(row, col) => {
                match self.viewport.cell_at(row, col) {
                    Some(p) => {
                        if self.mode == Mode::Insert {
                            self.world.toggle(p.0, p.1);
                        }
                    },
                    None => {},
                }
                Action::Continue
            },
        }
    }

    /// Advances the grid while playing; an empty grid ends the play.
    fn tick(&mut self)
        requires
            old(self).wf(),
        ensures
            final(self).wf(),
            final(self).viewport == old(self).viewport,
            final(self)@ == after_tick(old(self)@),
    {
        if self.mode == Mode::Play && self.running {
            self.world.next_day();
            if self.world.alive.len() == 0 {
                assert(self.world.cells() =~= Set::<(u16, u16)>::empty());
                self.mode = Mode::Insert;
                self.running = false;
            } else {
                assert(self.world.cells().contains(self.world.alive@[0]));
            }
        }
    }

    /// Carries out one command.
    fn run_command(&mut self, c: Command) -> (r: Action)
        requires
            old(self).wf(),
        ensures
            final(self).wf(),
            final(self).viewport == old(self).viewport,
            (final(self)@, r) == after_command(old(self)@, c),
    {
        match c {
            Command::TogglePlay => {
                if self.mode == Mode::Insert {
                    self.mode = Mode::Play;
                    self.running = true;
                } else {
                    self.running = !self.running;
                }
                Action::Continue
            },
            Command::SwitchToInsert => {
                self.mode = Mode::Insert;
                self.running = false;
                Action::Continue
            },
            Command::SwitchToPlay => {
                if self.mode == Mode::Insert {
                    self.mode = Mode::Play;
                    self.running = true;
                }
                Action::Continue
            },
            Command::Clear => {
                if self.mode == Mode::Insert {
                    self.world.clear();
                }
                Action::Continue
            },
            Command::LoadPreset => {
                self.world = World::pulsar(self.world.width, self.world.height);
                self.mode = Mode::Play;
                self.running = true;
                Action::Continue
            },
            Command::Save => {
                if self.mode == Mode::Insert {
                    Action::Save
                } else {
                    Action::Continue
                }
            },
            Command::Quit => Action::Quit,
            Command::Ignore => Action::Continue,
        }
    }
}

} // verus!
